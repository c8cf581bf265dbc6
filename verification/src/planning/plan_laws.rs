//! What a plan holds: the contexts of the crates that are wanted, in order, and the aliases for what the
//! root depends on.

use vstd::prelude::*;

use crate::context::{lemma_alias_ranks, CrateContextView, DependencyAlias, DependencyAliasView};
use crate::error::RazeErrorView;
use crate::metadata::{MetadataView, Node, NodeView, PackageView};
use crate::planning::checks::{
    is_vendored, lemma_resolve_check, lemma_vendored_check, resolve_check,
    resolve_matches_packages,
};
use crate::planning::checksums::Checksums;
use crate::planning::crate_catalog::{
    catalog_entries, find_entry, has_package, lemma_find_entry, CrateCatalogEntryView,
};
use crate::planning::crate_subplanner::{library_name, CrateSubplannerView};
use crate::planning::laws::{
    lemma_library_name, lemma_nodes_in_order, lemma_plan_holds_wanted_crates, plans_node,
};
use crate::planning::settings_laws::{
    are_settings_of, files_of, has_checksum, has_checksums, is_binary_version, is_checksum_of,
    is_first_indexed, is_last_locked, is_locked, lemma_checksum_of_package,
    lemma_settings_of_package, locked_packages,
};
use crate::planning::use_laws::{first_with_id, is_first_with_id, lemma_first_with_id};
use crate::planning::workspace_subplanner::{
    alias_for, declared_aliases, extra_aliases, is_binary_dep, library_alias, resolve_checks,
    settings_for, sorted_nodes, workspace_aliases, ContextsView, WorkspaceSubplannerView,
};
use crate::settings::{CrateSettingsView, GenMode};
use crate::sorting::{in_order, lemma_stable_sorted, lemma_stable_sorted_keeps_items, Ranked};
use crate::text::{sanitized, text_before, Text};

verus! {

/// The catalog of the workspace, and behind it those of the crates that are wanted for their binaries.
pub open spec fn catalogs_of(view: WorkspaceSubplannerView) -> Seq<MetadataView> {
    Seq::new(
        view.binary_dependencies.len() + 1,
        |k: int|
            if k == 0 {
                view.catalog
            } else {
                view.binary_dependencies[k - 1]
            },
    )
}

/// Whether a crate of this name is wanted for its binaries.
pub open spec fn is_binary_name(view: WorkspaceSubplannerView, name: Text) -> bool {
    exists|i: int|
        0 <= i < view.settings.binary_deps.len() && (#[trigger] view.settings.binary_deps[i]).name
            == name
}

/// Whether Cargo told of the package of a node.
pub open spec fn is_known(m: MetadataView, node: NodeView) -> bool {
    exists|j: int| is_first_with_id(m.packages, node.id, j)
}

/// The name of the package of a node.
pub open spec fn name_of(m: MetadataView, node: NodeView) -> Text {
    first_with_id(m.packages, node.id).name
}

/// Whether a node is the root of its graph.
pub open spec fn is_graph_root(m: MetadataView, node: NodeView) -> bool {
    m.resolve is Some && m.resolve->Some_0.root == Some(node.id)
}

/// Whether the crate of a node is planned, and its context stands in the plan: it is wanted for its
/// binaries, or neither the root nor a crate of the workspace.
pub open spec fn is_wanted_crate(
    view: WorkspaceSubplannerView,
    m: MetadataView,
    node: NodeView,
) -> bool {
    is_known(m, node) && (is_binary_name(view, name_of(m, node)) || !is_graph_root(m, node)
        && !m.workspace_members.contains(node.id))
}

/// Whether the crate of a node is planned as the root, whose context does not stand in the plan.
pub open spec fn is_root_crate(
    view: WorkspaceSubplannerView,
    m: MetadataView,
    node: NodeView,
) -> bool {
    is_known(m, node) && is_graph_root(m, node) && !is_binary_name(view, name_of(m, node))
}

/// What a package is to its workspace.
pub open spec fn entry_for(m: MetadataView, package: PackageView) -> CrateCatalogEntryView {
    let resolve = m.resolve->Some_0;
    CrateCatalogEntryView {
        package,
        is_root: resolve.root == Some(package.id),
        is_root_dep: exists|i: int|
            0 <= i < resolve.nodes.len() && resolve.root == Some((#[trigger] resolve.nodes[i]).id)
                && resolve.nodes[i].dependencies.contains(package.id),
        is_workspace_crate: m.workspace_members.contains(package.id),
    }
}

/// The planner for the crate of a node with these settings and this checksum.
pub open spec fn planner_for(
    view: WorkspaceSubplannerView,
    m: MetadataView,
    node: NodeView,
    settings: Option<CrateSettingsView>,
    checksum: Option<Text>,
) -> CrateSubplannerView {
    let package = first_with_id(m.packages, node.id);
    CrateSubplannerView {
        settings: view.settings,
        platform_details: view.platform_details,
        facts: view.facts,
        catalog: m,
        entry: entry_for(m, package),
        source_id: match package.source {
            Some(source) => source.id,
            None => None,
        },
        node,
        crate_settings: settings,
        sha256: checksum,
    }
}

/// Whether `context` is that of the crate of a node, with the settings and the checksum of its package.
pub open spec fn is_context_of(
    view: WorkspaceSubplannerView,
    m: MetadataView,
    node: NodeView,
    context: CrateContextView,
) -> bool {
    let package = first_with_id(m.packages, node.id);
    exists|settings: Option<CrateSettingsView>, checksum: Option<Text>|
        {
            &&& are_settings_of(view.settings.crates, package, settings)
            &&& is_checksum_of(view, package.name, package.version, checksum)
            &&& #[trigger] planner_for(view, m, node, settings, checksum).context() == Ok::<
                CrateContextView,
                RazeErrorView,
            >(context)
        }
}

/// Whether the crate of a node has a context.
pub open spec fn has_context(
    view: WorkspaceSubplannerView,
    m: MetadataView,
    node: NodeView,
) -> bool {
    exists|context: CrateContextView| is_context_of(view, m, node, context)
}

proof fn lemma_one_checksum(
    view: WorkspaceSubplannerView,
    name: Text,
    version: Text,
    a: Option<Text>,
    b: Option<Text>,
)
    requires
        is_checksum_of(view, name, version, a),
        is_checksum_of(view, name, version, b),
    ensures
        a == b,
{
    let said = view.facts.index_checksums;
    let files = files_of(view);
    if view.settings.genmode == GenMode::Remote
        && is_binary_version(
        view.settings.binary_deps,
        name,
        version,
    ) {
        let x = choose|x: int|
            #[trigger] is_first_indexed(said, x, name, version) && said[x].checksum == Ok::<
                Text,
                Text,
            >(a->Some_0);
        let y = choose|y: int|
            #[trigger] is_first_indexed(said, y, name, version) && said[y].checksum == Ok::<
                Text,
                Text,
            >(b->Some_0);
        if x < y {
            assert(said[x].name != name || said[x].version != version);
        }
        if y < x {
            assert(said[y].name != name || said[y].version != version);
        }
    } else if is_locked(files, name, version) {
        let (f, p) = choose|f: int, p: int|
            {
                &&& #[trigger] is_last_locked(files, f, p, name, version)
                &&& a == locked_packages(files[f])[p].checksum
            };
        let (g, q) = choose|f: int, p: int|
            {
                &&& #[trigger] is_last_locked(files, f, p, name, version)
                &&& b == locked_packages(files[f])[p].checksum
            };
        assert(has_checksum(
            locked_packages(files[f]),
            p,
            name,
            version,
        ));
        assert(has_checksum(
            locked_packages(files[g]),
            q,
            name,
            version,
        ));
    }
}

/// The entry of a node's package says what the package is to its workspace, and whether the crate is
/// planned.
pub proof fn lemma_known(view: WorkspaceSubplannerView, m: MetadataView, node: NodeView)
    requires
        m.resolve is Some,
    ensures
        match find_entry(catalog_entries(m), node.id) {
            Some(entry) => {
                &&& is_known(m, node)
                &&& entry == entry_for(m, first_with_id(m.packages, node.id))
                &&& entry.package.id == node.id
                &&& view.is_left_out(entry) <==> !is_wanted_crate(view, m, node) && !is_root_crate(
                    view,
                    m,
                    node,
                )
            },
            None => !is_known(m, node),
        },
        view.is_root_node(m, node) <==> is_root_crate(view, m, node),
{
    let packages = m.packages;
    lemma_find_entry(m, node.id);
    if is_known(m, node) {
        let j = choose|j: int| is_first_with_id(packages, node.id, j);
        lemma_first_with_id(m, node.id, j);
        let entry = find_entry(catalog_entries(m), node.id)->Some_0;
        let ours = entry_for(m, first_with_id(packages, node.id));
        assert(entry.is_root_dep == ours.is_root_dep);
        assert(entry =~= ours);
        assert(is_binary_name(view, entry.package.name)
            <==> is_binary_dep(
            view.settings.binary_deps,
            entry.package.name,
        )) by {
            let deps = view.settings.binary_deps;
            if is_binary_name(view, entry.package.name) {
                let i = choose|i: int|
                    0 <= i < view.settings.binary_deps.len() && (
                    #[trigger] view.settings.binary_deps[i]).name == entry.package.name;
                assert(deps[i].name == entry.package.name);
            }
        }
    } else if find_entry(catalog_entries(m), node.id) is Some {
        let i = choose|i: int| 0 <= i < packages.len() && (#[trigger] packages[i]).id == node.id;
        lemma_some_first(packages, node.id, i);
    }
}

/// If a package has an id, there is a first with it.
pub proof fn lemma_some_first(packages: Seq<PackageView>, id: Text, i: int)
    requires
        0 <= i < packages.len(),
        packages[i].id == id,
    ensures
        exists|j: int| is_first_with_id(packages, id, j),
    decreases i,
{
    if exists|h: int| 0 <= h < i && (#[trigger] packages[h]).id == id {
        let h = choose|h: int| 0 <= h < i && (#[trigger] packages[h]).id == id;
        lemma_some_first(packages, id, h);
    } else {
        assert(is_first_with_id(packages, id, i));
    }
}

/// The context that a node is planned with is that of its crate.
pub proof fn lemma_crate_context(
    view: WorkspaceSubplannerView,
    checksums: Checksums,
    m: MetadataView,
    node: NodeView,
)
    requires
        m.resolve is Some,
        view.checksums() == Ok::<Checksums, RazeErrorView>(checksums),
    ensures
        ({
            let planned = view.crate_context(checksums, m, node);
            if is_wanted_crate(view, m, node) || is_root_crate(view, m, node) {
                &&& planned is Ok ==> planned->Ok_0 is Some && is_context_of(
                    view,
                    m,
                    node,
                    planned->Ok_0->Some_0,
                )
                &&& planned is Err ==> !has_context(view, m, node)
            } else {
                planned is Ok && planned->Ok_0 is None
            }
        }),
{
    let planned = view.crate_context(checksums, m, node);
    lemma_known(view, m, node);
    if is_wanted_crate(view, m, node) || is_root_crate(view, m, node) {
        let package = first_with_id(m.packages, node.id);
        let entry = find_entry(catalog_entries(m), node.id)->Some_0;
        let checksum = checksums.get((package.name, package.version));
        lemma_checksum_of_package(view, package.name, package.version);
        if settings_for(view.settings.crates, package) is Ok {
            let settings = settings_for(view.settings.crates, package)->Ok_0;
            lemma_settings_of_package(view.settings.crates, package, settings);
            let planner = planner_for(view, m, node, settings, checksum);
            assert(planner =~= view.crate_subplanner(checksums, m, entry, node, settings));
            if planned is Ok {
                assert(is_context_of(view, m, node, planned->Ok_0->Some_0));
            }
        }
        if planned is Err && has_context(view, m, node) {
            let c = choose|c: CrateContextView| is_context_of(view, m, node, c);
            let (s, sum) = choose|s: Option<CrateSettingsView>, sum: Option<Text>|
                {
                    &&& are_settings_of(view.settings.crates, package, s)
                    &&& is_checksum_of(view, package.name, package.version, sum)
                    &&& #[trigger] planner_for(view, m, node, s, sum).context() == Ok::<
                        CrateContextView,
                        RazeErrorView,
                    >(c)
                };
            lemma_settings_of_package(view.settings.crates, package, s);
            lemma_one_checksum(view, package.name, package.version, sum, checksum);
        }
    }
}

spec fn contexts_from(
    view: WorkspaceSubplannerView,
    checksums: Checksums,
    m: MetadataView,
    nodes: Seq<NodeView>,
) -> Seq<CrateContextView> {
    nodes.filter(|node: NodeView| is_wanted_crate(view, m, node)).map_values(
        |node: NodeView| view.crate_context(checksums, m, node)->Ok_0->Some_0,
    )
}

/// How many of these nodes are the root.
pub open spec fn roots_among(
    view: WorkspaceSubplannerView,
    m: MetadataView,
    nodes: Seq<NodeView>,
) -> nat {
    nodes.filter(|node: NodeView| is_root_crate(view, m, node)).len()
}

/// How many nodes of the first `n` catalogs are the root.
pub open spec fn roots_up_to(view: WorkspaceSubplannerView, n: int) -> nat
    decreases n,
{
    if n <= 0 {
        0
    } else {
        let m = catalogs_of(view)[n - 1];
        roots_up_to(view, n - 1) + roots_among(view, m, m.resolve->Some_0.nodes)
    }
}

spec fn known_roots(known: ContextsView) -> nat {
    if known.root is Some {
        1
    } else {
        0
    }
}

/// Whether each of these nodes that is planned has a context.
pub open spec fn have_contexts(
    view: WorkspaceSubplannerView,
    m: MetadataView,
    nodes: Seq<NodeView>,
) -> bool {
    forall|i: int|
        0 <= i < nodes.len() && (is_wanted_crate(view, m, nodes[i]) || is_root_crate(
            view,
            m,
            nodes[i],
        )) ==> has_context(view, m, #[trigger] nodes[i])
}

/// Whether this is the context of a node of these that is the root.
spec fn is_context_of_root(
    view: WorkspaceSubplannerView,
    m: MetadataView,
    nodes: Seq<NodeView>,
    context: CrateContextView,
) -> bool {
    exists|i: int|
        0 <= i < nodes.len() && is_root_crate(view, m, #[trigger] nodes[i]) && is_context_of(
            view,
            m,
            nodes[i],
            context,
        )
}

proof fn lemma_nodes(
    view: WorkspaceSubplannerView,
    before: ContextsView,
    checksums: Checksums,
    m: MetadataView,
    nodes: Seq<NodeView>,
)
    requires
        m.resolve is Some,
        view.checksums() == Ok::<Checksums, RazeErrorView>(checksums),
    ensures
        view.with_nodes(before, checksums, m, nodes) is Ok <==> have_contexts(view, m, nodes)
            && known_roots(before) + roots_among(view, m, nodes) <= 1 || nodes.len() == 0,
        view.with_nodes(before, checksums, m, nodes) matches Ok(after) ==> {
            &&& after.contexts == before.contexts + contexts_from(view, checksums, m, nodes)
            &&& known_roots(after) == known_roots(before) + roots_among(view, m, nodes)
            &&& after.root is Some ==> after.root == before.root || is_context_of_root(
                view,
                m,
                nodes,
                after.root->Some_0,
            )
        },
    decreases nodes.len(),
{
    reveal(Seq::filter);
    let wanted = |node: NodeView| is_wanted_crate(view, m, node);
    if nodes.len() == 0 {
        assert(contexts_from(view, checksums, m, nodes) =~= Seq::empty());
        assert(before.contexts + contexts_from(view, checksums, m, nodes) =~= before.contexts);
    } else {
        let front = nodes.drop_last();
        let last = nodes.last();
        let n = nodes.len() - 1;
        lemma_nodes(view, before, checksums, m, front);
        lemma_crate_context(view, checksums, m, last);
        lemma_known(view, m, last);
        assert(nodes[n] == last);
        assert(forall|i: int| 0 <= i < n ==> #[trigger] nodes[i] == front[i]);
        assert(roots_among(view, m, nodes) == roots_among(view, m, front) + if is_root_crate(
            view,
            m,
            last,
        ) {
            1nat
        } else {
            0nat
        });
        let planned = is_wanted_crate(view, m, last) || is_root_crate(view, m, last);
        assert(have_contexts(view, m, nodes) <==> have_contexts(view, m, front) && (planned
            ==> has_context(view, m, last))) by {
            if have_contexts(view, m, nodes) {
                assert forall|i: int|
                    0 <= i < front.len() && (is_wanted_crate(view, m, front[i]) || is_root_crate(
                        view,
                        m,
                        front[i],
                    )) implies has_context(view, m, #[trigger] front[i]) by {
                    assert(nodes[i] == front[i]);
                }
                assert(planned ==> has_context(view, m, nodes[n]));
            }
            if have_contexts(view, m, front) && (planned ==> has_context(view, m, last)) {
                assert forall|i: int|
                    0 <= i < nodes.len() && (is_wanted_crate(view, m, nodes[i]) || is_root_crate(
                        view,
                        m,
                        nodes[i],
                    )) implies has_context(view, m, #[trigger] nodes[i]) by {
                    if i < n {
                        assert(front[i] == nodes[i]);
                    }
                }
            }
        }
        if planned && view.crate_context(checksums, m, last) is Ok {
            assert(is_context_of(
                view,
                m,
                last,
                view.crate_context(checksums, m, last)->Ok_0->Some_0,
            ));
            assert(has_context(view, m, last));
        }
        let was = view.with_nodes(before, checksums, m, front);
        if front.len() == 0 {
            assert(have_contexts(view, m, front));
            assert(roots_among(view, m, front) == 0);
        }
        if was is Ok {
            let known = was->Ok_0;
            if view.with_node(known, checksums, m, last) is Ok {
                let after = view.with_node(known, checksums, m, last)->Ok_0;
                let earlier = contexts_from(view, checksums, m, front);
                let all = contexts_from(view, checksums, m, nodes);
                if is_wanted_crate(view, m, last) {
                    assert(!is_root_crate(view, m, last));
                    let c = view.crate_context(checksums, m, last)->Ok_0->Some_0;
                    assert(all =~= earlier.push(c));
                    assert(after.contexts =~= before.contexts + all);
                } else {
                    assert(all =~= earlier);
                    assert(after.contexts =~= before.contexts + all);
                }
                if is_root_crate(view, m, last) {
                    assert(is_context_of_root(view, m, nodes, after.root->Some_0)) by {
                        assert(is_root_crate(view, m, nodes[n]));
                    }
                } else if after.root is Some && after.root != before.root {
                    let i = choose|i: int|
                        0 <= i < front.len() && is_root_crate(view, m, #[trigger] front[i])
                            && is_context_of(view, m, front[i], after.root->Some_0);
                    assert(nodes[i] == front[i]);
                    assert(is_context_of_root(view, m, nodes, after.root->Some_0));
                }
            }
        }
    }
}

proof fn lemma_filter_multiset<A>(s: Seq<A>, f: spec_fn(A) -> bool)
    ensures
        s.filter(f).to_multiset() =~= s.to_multiset().filter(f),
    decreases s.len(),
{
    broadcast use vstd::seq_lib::group_to_multiset_ensures;

    reveal(Seq::filter);
    if s.len() > 0 {
        let front = s.drop_last();
        lemma_filter_multiset(front, f);
        assert(front.push(s.last()) =~= s);
        assert(s.to_multiset() =~= front.to_multiset().insert(s.last()));
    }
}

proof fn lemma_sorted_roots(view: WorkspaceSubplannerView, m: MetadataView, nodes: Seq<NodeView>)
    ensures
        roots_among(view, m, sorted_nodes(nodes)) == roots_among(view, m, nodes),
        have_contexts(view, m, sorted_nodes(nodes)) <==> have_contexts(view, m, nodes),
{
    broadcast use vstd::seq_lib::group_to_multiset_ensures;

    let sorted = sorted_nodes(nodes);
    let root = |node: NodeView| is_root_crate(view, m, node);
    lemma_nodes_in_order(nodes);
    lemma_stable_sorted_keeps_items::<&Node>(nodes);
    lemma_filter_multiset(nodes, root);
    lemma_filter_multiset(sorted, root);
    assert(nodes.filter(root).to_multiset().len() == nodes.filter(root).len());
    assert(sorted.filter(root).to_multiset().len() == sorted.filter(root).len());
    if have_contexts(view, m, nodes) {
        assert forall|i: int|
            0 <= i < sorted.len() && (is_wanted_crate(view, m, sorted[i]) || is_root_crate(
                view,
                m,
                sorted[i],
            )) implies has_context(view, m, #[trigger] sorted[i]) by {
            assert(sorted.contains(sorted[i]));
            let j = choose|j: int| 0 <= j < nodes.len() && nodes[j] == sorted[i];
            assert(has_context(view, m, nodes[j]));
        }
    }
    if have_contexts(view, m, sorted) {
        assert forall|i: int|
            0 <= i < nodes.len() && (is_wanted_crate(view, m, nodes[i]) || is_root_crate(
                view,
                m,
                nodes[i],
            )) implies has_context(view, m, #[trigger] nodes[i]) by {
            assert(nodes.contains(nodes[i]));
            assert(sorted.contains(nodes[i]));
            let j = choose|j: int| 0 <= j < sorted.len() && sorted[j] == nodes[i];
            assert(has_context(view, m, sorted[j]));
        }
    }
}

/// Whether these are the contexts of the nodes that are wanted, one for each, in their order.
pub open spec fn line_up(
    view: WorkspaceSubplannerView,
    m: MetadataView,
    nodes: Seq<NodeView>,
    contexts: Seq<CrateContextView>,
) -> bool {
    let wanted = nodes.filter(|node: NodeView| is_wanted_crate(view, m, node));
    &&& contexts.len() == wanted.len()
    &&& forall|i: int|
        0 <= i < wanted.len() ==> is_context_of(view, m, #[trigger] wanted[i], contexts[i])
}

/// Whether these are the contexts of the crates of a catalog that are wanted, one for each node, in
/// order of their ids.
pub open spec fn are_contexts_of(
    view: WorkspaceSubplannerView,
    m: MetadataView,
    contexts: Seq<CrateContextView>,
) -> bool {
    exists|nodes: Seq<NodeView>|
        {
            &&& nodes.to_multiset() == m.resolve->Some_0.nodes.to_multiset()
            &&& forall|i: int, j: int|
                0 <= i < j < nodes.len() ==> !text_before(
                    (#[trigger] nodes[j]).id,
                    (#[trigger] nodes[i]).id,
                )
            &&& #[trigger] line_up(view, m, nodes, contexts)
        }
}

proof fn lemma_line_up(
    view: WorkspaceSubplannerView,
    checksums: Checksums,
    m: MetadataView,
    nodes: Seq<NodeView>,
)
    requires
        m.resolve is Some,
        view.checksums() == Ok::<Checksums, RazeErrorView>(checksums),
        have_contexts(view, m, nodes),
    ensures
        line_up(view, m, nodes, contexts_from(view, checksums, m, nodes)),
{
    let f = |node: NodeView| is_wanted_crate(view, m, node);
    let wanted = nodes.filter(f);
    let contexts = contexts_from(view, checksums, m, nodes);
    assert forall|i: int| 0 <= i < wanted.len() implies is_context_of(
        view,
        m,
        #[trigger] wanted[i],
        contexts[i],
    ) by {
        nodes.lemma_filter_pred(f, i);
        nodes.lemma_filter_contains_rev(f, wanted[i]);
        let j = choose|j: int| 0 <= j < nodes.len() && nodes[j] == wanted[i];
        assert(has_context(view, m, nodes[j]));
        lemma_crate_context(view, checksums, m, wanted[i]);
    }
}

/// Whether the nodes of the first `n` catalogs can all be planned: each catalog has a graph, and each
/// crate that is planned has a context.
pub open spec fn can_be_planned_up_to(view: WorkspaceSubplannerView, n: int) -> bool {
    forall|k: int|
        0 <= k < n ==> (#[trigger] catalogs_of(view)[k]).resolve is Some && have_contexts(
            view,
            catalogs_of(view)[k],
            catalogs_of(view)[k].resolve->Some_0.nodes,
        )
}

/// Whether this is the context of the crate of a node of this catalog, which is the root.
pub open spec fn is_root_of_catalog(
    view: WorkspaceSubplannerView,
    m: MetadataView,
    context: CrateContextView,
) -> bool {
    exists|i: int|
        0 <= i < m.resolve->Some_0.nodes.len() && is_root_crate(
            view,
            m,
            #[trigger] m.resolve->Some_0.nodes[i],
        ) && is_context_of(view, m, m.resolve->Some_0.nodes[i], context)
}

spec fn are_contexts_up_to(
    view: WorkspaceSubplannerView,
    n: int,
    parts: Seq<Seq<CrateContextView>>,
) -> bool {
    &&& parts.len() == n
    &&& forall|k: int|
        0 <= k < n ==> are_contexts_of(view, catalogs_of(view)[k], #[trigger] parts[k])
}

proof fn lemma_catalogs(view: WorkspaceSubplannerView, checksums: Checksums, n: int) -> (parts: Seq<
    Seq<CrateContextView>,
>)
    requires
        0 <= n <= catalogs_of(view).len(),
        view.checksums() == Ok::<Checksums, RazeErrorView>(checksums),
    ensures
        view.with_catalogs(checksums, catalogs_of(view).take(n)) is Ok <==> can_be_planned_up_to(
            view,
            n,
        ) && roots_up_to(view, n) <= 1,
        view.with_catalogs(checksums, catalogs_of(view).take(n)) matches Ok(after) ==> {
            &&& are_contexts_up_to(view, n, parts)
            &&& after.contexts == parts.flatten()
            &&& known_roots(after) == roots_up_to(view, n)
            &&& after.root is Some ==> exists|k: int|
                0 <= k < n && is_root_of_catalog(
                    view,
                    #[trigger] catalogs_of(view)[k],
                    after.root->Some_0,
                )
        },
    decreases n,
{
    let all = catalogs_of(view);
    let catalogs = all.take(n);
    if n == 0 {
        assert(catalogs =~= Seq::empty());
        Seq::empty()
    } else {
        let front = all.take(n - 1);
        let m = all[n - 1];
        assert(catalogs.drop_last() =~= front);
        assert(catalogs.last() == m);
        let parts = lemma_catalogs(view, checksums, n - 1);
        assert(can_be_planned_up_to(view, n) <==> can_be_planned_up_to(view, n - 1)
            && m.resolve is Some && have_contexts(view, m, m.resolve->Some_0.nodes)) by {
            if can_be_planned_up_to(view, n) {
                assert(all[n - 1].resolve is Some);
            }
        }
        if view.with_catalogs(checksums, front) is Ok && m.resolve is Some {
            let known = view.with_catalogs(checksums, front)->Ok_0;
            let nodes = m.resolve->Some_0.nodes;
            let sorted = sorted_nodes(nodes);
            lemma_nodes(view, known, checksums, m, sorted);
            lemma_sorted_roots(view, m, nodes);
            lemma_nodes_in_order(nodes);
            lemma_stable_sorted_keeps_items::<&Node>(nodes);
            assert(sorted.len() == 0 ==> roots_among(view, m, sorted) == 0) by {
                reveal(Seq::filter);
            }
            assert(sorted.len() == 0 ==> have_contexts(view, m, sorted));
            if view.with_catalogs(checksums, catalogs) is Ok {
                let after = view.with_catalogs(checksums, catalogs)->Ok_0;
                let added = contexts_from(view, checksums, m, sorted);
                let longer = parts.push(added);
                lemma_line_up(view, checksums, m, sorted);
                assert forall|i: int, j: int| 0 <= i < j < sorted.len() implies !text_before(
                    (#[trigger] sorted[j]).id,
                    (#[trigger] sorted[i]).id,
                ) by {
                    assert(<&Node>::ranks_le(sorted[i], sorted[j]));
                }
                assert(are_contexts_of(view, m, added));
                assert forall|k: int| 0 <= k < n implies are_contexts_of(
                    view,
                    catalogs_of(view)[k],
                    #[trigger] longer[k],
                ) by {
                    if k < n - 1 {
                        assert(longer[k] == parts[k]);
                    }
                }
                parts.lemma_flatten_push(added);
                if after.root is Some {
                    if after.root == known.root {
                        let k = choose|k: int|
                            0 <= k < n - 1 && is_root_of_catalog(
                                view,
                                #[trigger] catalogs_of(view)[k],
                                known.root->Some_0,
                            );
                        assert(is_root_of_catalog(view, catalogs_of(view)[k], after.root->Some_0));
                    } else {
                        let i = choose|i: int|
                            0 <= i < sorted.len() && is_root_crate(view, m, #[trigger] sorted[i])
                                && is_context_of(view, m, sorted[i], after.root->Some_0);
                        assert(sorted.contains(sorted[i]));
                        let j = choose|j: int| 0 <= j < nodes.len() && nodes[j] == sorted[i];
                        assert(is_root_crate(view, m, nodes[j]));
                        assert(is_root_of_catalog(view, m, after.root->Some_0));
                        assert(catalogs_of(view)[n - 1] == m);
                    }
                }
                longer
            } else {
                parts
            }
        } else {
            parts
        }
    }
}

/// The catalogs are planned exactly if each crate that is planned has a context and there is one root at
/// most; and there is one exactly if it was met.
pub proof fn lemma_catalogs_can_be_planned(view: WorkspaceSubplannerView, checksums: Checksums)
    requires
        view.checksums() == Ok::<Checksums, RazeErrorView>(checksums),
    ensures
        ({
            let n = catalogs_of(view).len() as int;
            let known = view.with_catalogs(checksums, view.all_catalogs());
            &&& known is Ok <==> can_be_planned_up_to(view, n) && roots_up_to(view, n) <= 1
            &&& known is Ok ==> (known->Ok_0.root is Some <==> roots_up_to(view, n) == 1)
        }),
{
    let n = catalogs_of(view).len() as int;
    assert(catalogs_of(view).take(n) =~= view.all_catalogs());
    let parts = lemma_catalogs(view, checksums, n);
}

/// Whether Cargo gave a graph, and told of the package of each of its nodes.
pub open spec fn knows_every_node(m: MetadataView) -> bool {
    m.resolve is Some && forall|i: int|
        0 <= i < m.resolve->Some_0.nodes.len() ==> is_known(m, #[trigger] m.resolve->Some_0.nodes[i])
}

/// Whether the checks pass that come before planning: of every node of the workspace the package is
/// known; where Bazel fetches the sources, those of the crates that are wanted for their binaries are
/// too; and where they are checked in, those of every package are there, except of the root and of the
/// workspace's own.
pub open spec fn passes_checks(view: WorkspaceSubplannerView) -> bool {
    let m = view.catalog;
    &&& knows_every_node(m)
    &&& view.settings.genmode == GenMode::Remote ==> forall|k: int|
        0 <= k < view.binary_dependencies.len() ==> knows_every_node(
            #[trigger] view.binary_dependencies[k],
        )
    &&& view.settings.genmode == GenMode::Vendored ==> forall|j: int|
        0 <= j < m.packages.len() ==> {
            ||| m.resolve->Some_0.root == Some((#[trigger] m.packages[j]).id)
            ||| m.workspace_members.contains(m.packages[j].id)
            ||| view.facts.vendored_crates.contains(
                m.packages[j].name + "-"@ + m.packages[j].version,
            )
        }
}

/// The check of a graph passes exactly if the package of every node is known.
pub proof fn lemma_resolve_matches(m: MetadataView)
    ensures
        resolve_check(m) is Ok <==> knows_every_node(m),
{
    lemma_resolve_check(m);
    if m.resolve is Some {
        let nodes = m.resolve->Some_0.nodes;
        assert forall|i: int| 0 <= i < nodes.len() implies (is_known(m, #[trigger] nodes[i])
            <==> has_package(m.packages, nodes[i].id)) by {
            if is_known(m, nodes[i]) {
                let j = choose|j: int| is_first_with_id(m.packages, nodes[i].id, j);
                assert(m.packages[j].id == nodes[i].id);
            }
            if has_package(m.packages, nodes[i].id) {
                let j = choose|j: int|
                    0 <= j < m.packages.len() && (#[trigger] m.packages[j]).id == nodes[i].id;
                lemma_some_first(m.packages, nodes[i].id, j);
            }
        }
        if knows_every_node(m) {
            assert forall|i: int| 0 <= i < nodes.len() implies has_package(
                m.packages,
                (#[trigger] nodes[i]).id,
            ) by {
                assert(is_known(m, nodes[i]));
            }
            assert(resolve_matches_packages(m));
        }
        if resolve_matches_packages(m) {
            assert forall|i: int| 0 <= i < nodes.len() implies is_known(
                m,
                #[trigger] m.resolve->Some_0.nodes[i],
            ) by {
                assert(has_package(m.packages, nodes[i].id));
            }
        }
    }
}

proof fn lemma_resolve_matches_all(catalogs: Seq<MetadataView>)
    ensures
        resolve_checks(catalogs) is Ok <==> forall|k: int|
            0 <= k < catalogs.len() ==> knows_every_node(#[trigger] catalogs[k]),
    decreases catalogs.len(),
{
    if catalogs.len() > 0 {
        let front = catalogs.drop_last();
        let last = catalogs.last();
        lemma_resolve_matches_all(front);
        lemma_resolve_matches(last);
        assert(catalogs[catalogs.len() - 1] == last);
        assert(forall|k: int| 0 <= k < front.len() ==> #[trigger] catalogs[k] == front[k]);
        if exists|k: int| 0 <= k < front.len() && !knows_every_node(#[trigger] front[k]) {
            let k = choose|k: int| 0 <= k < front.len() && !knows_every_node(#[trigger] front[k]);
            assert(catalogs[k] == front[k]);
        } else if knows_every_node(last) {
            assert forall|k: int| 0 <= k < catalogs.len() implies knows_every_node(
                #[trigger] catalogs[k],
            ) by {
                if k < front.len() {
                    assert(front[k] == catalogs[k]);
                }
            }
        }
    }
}

/// The checks that come before planning pass exactly if they should.
pub proof fn lemma_checks(view: WorkspaceSubplannerView)
    ensures
        view.checks() is Ok <==> passes_checks(view),
{
    let m = view.catalog;
    let entries = catalog_entries(m);
    lemma_resolve_matches(m);
    lemma_resolve_matches_all(view.binary_dependencies);
    lemma_vendored_check(entries, view.facts.vendored_crates, view.settings.workspace_path);
    if view.settings.genmode == GenMode::Vendored {
        assert(forall|j: int|
            0 <= j < m.packages.len() ==> (#[trigger] entries[j]).package == m.packages[j]);
        if passes_checks(view) {
            assert forall|j: int| 0 <= j < entries.len() implies is_vendored(
                #[trigger] entries[j],
                view.facts.vendored_crates,
            ) by {
                assert(entries[j].package == m.packages[j]);
            }
        }
        if view.checks() is Ok {
            assert forall|j: int| 0 <= j < m.packages.len() implies {
                ||| m.resolve->Some_0.root == Some((#[trigger] m.packages[j]).id)
                ||| m.workspace_members.contains(m.packages[j].id)
                ||| view.facts.vendored_crates.contains(
                    m.packages[j].name + "-"@ + m.packages[j].version,
                )
            } by {
                assert(is_vendored(entries[j], view.facts.vendored_crates));
            }
        }
    }
}

/// A build is planned exactly if the checks pass, the checksums can be gathered, each crate that is
/// planned has a context, and there is one root.
pub proof fn lemma_plan_is_made_if_it_can_be(view: WorkspaceSubplannerView)
    ensures
        view.planned_build() is Ok <==> {
            &&& passes_checks(view)
            &&& has_checksums(view)
            &&& can_be_planned_up_to(view, catalogs_of(view).len() as int)
            &&& roots_up_to(view, catalogs_of(view).len() as int) == 1
        },
{
    let n = catalogs_of(view).len() as int;
    lemma_checks(view);
    lemma_checksum_of_package(view, Seq::empty(), Seq::empty());
    if view.checksums() is Ok {
        let checksums = view.checksums()->Ok_0;
        let parts = lemma_catalogs(view, checksums, n);
        assert(catalogs_of(view).take(n) =~= view.all_catalogs());
    }
}

/// A plan holds the contexts of the crates that are wanted, and nothing else: those of the workspace's
/// catalog first, then those of the crates that are wanted for their binaries; and those of a catalog in
/// order of their ids. It says of the workspace what the settings say, and hands on the files of the
/// crates that are wanted for their binaries.
pub proof fn lemma_plan_holds_contexts(view: WorkspaceSubplannerView) -> (parts: Seq<
    Seq<CrateContextView>,
>)
    requires
        view.planned_build() is Ok,
    ensures
        ({
            let build = view.planned_build()->Ok_0;
            &&& parts.len() == view.binary_dependencies.len() + 1
            &&& forall|k: int|
                0 <= k < parts.len() ==> are_contexts_of(
                    view,
                    catalogs_of(view)[k],
                    #[trigger] parts[k],
                )
            &&& build.crate_contexts == parts.flatten()
            &&& build.workspace_context.workspace_path == view.settings.workspace_path
            &&& build.workspace_context.gen_workspace_prefix == view.settings.gen_workspace_prefix
            &&& build.workspace_context.output_buildfile_suffix
                == view.settings.output_buildfile_suffix
            &&& build.binary_crate_files == view.binary_deps_files
        }),
{
    let n = catalogs_of(view).len() as int;
    assert(catalogs_of(view).take(n) =~= view.all_catalogs());
    lemma_catalogs(view, view.checksums()->Ok_0, n)
}

/// Whether the last of these aliases for a target is this name.
pub open spec fn is_last_alias(
    aliases: Seq<DependencyAliasView>,
    target: Text,
    name: Text,
) -> bool {
    exists|i: int|
        {
            &&& 0 <= i < aliases.len()
            &&& (#[trigger] aliases[i]).target == target
            &&& aliases[i].alias == name
            &&& forall|h: int| i < h < aliases.len() ==> (#[trigger] aliases[h]).target != target
        }
}

/// Whether this is the alias for the library of a crate: for the path of the crate, a colon and its
/// sanitized name, with the name that the root gives to that, or else the sanitized name.
pub open spec fn is_library_alias(
    root_aliases: Seq<DependencyAliasView>,
    context: CrateContextView,
    alias: DependencyAliasView,
) -> bool {
    let own = sanitized(context.pkg_name);
    &&& alias.target == context.workspace_path_to_crate + ":"@ + own
    &&& {
        ||| is_last_alias(root_aliases, alias.target, alias.alias)
        ||| alias.alias == own && forall|i: int|
            0 <= i < root_aliases.len() ==> (#[trigger] root_aliases[i]).target != alias.target
    }
}

/// Whether a crate has a target which is a library or a procedural macro.
pub open spec fn has_library(context: CrateContextView) -> bool {
    exists|t: int|
        0 <= t < context.targets.len() && ((#[trigger] context.targets[t]).kind == "lib"@
            || context.targets[t].kind == "proc-macro"@)
}

/// How often an alias is due for these crates: for the library of each that has one and that the root
/// depends on, and for each further target of it that the settings name.
pub open spec fn times_due(
    root_aliases: Seq<DependencyAliasView>,
    contexts: Seq<CrateContextView>,
    alias: DependencyAliasView,
) -> nat
    decreases contexts.len(),
{
    if contexts.len() == 0 {
        0
    } else {
        let c = contexts.last();
        times_due(root_aliases, contexts.drop_last(), alias) + if c.is_root_dependency
            && has_library(c) {
            (if is_library_alias(root_aliases, c, alias) {
                1nat
            } else {
                0nat
            }) + (if alias.target == c.workspace_path_to_crate + ":"@ + alias.alias {
                c.raze_settings.extra_aliased_targets.to_multiset().count(alias.alias)
            } else {
                0nat
            })
        } else {
            0nat
        }
    }
}

proof fn lemma_alias_for(aliases: Seq<DependencyAliasView>, target: Text)
    ensures
        match alias_for(aliases, target) {
            Some(name) => forall|other: Text| #[trigger]
                is_last_alias(aliases, target, other) <==> other == name,
            None => forall|i: int|
                0 <= i < aliases.len() ==> (#[trigger] aliases[i]).target != target,
        },
        alias_for(aliases, target) is Some ==> exists|i: int|
            0 <= i < aliases.len() && (#[trigger] aliases[i]).target == target,
    decreases aliases.len(),
{
    if aliases.len() > 0 {
        let front = aliases.drop_last();
        let n = aliases.len() - 1;
        assert(aliases[n] == aliases.last());
        assert(forall|i: int| 0 <= i < n ==> #[trigger] aliases[i] == front[i]);
        if aliases.last().target == target {
            let name = aliases.last().alias;
            assert forall|other: Text| #[trigger] is_last_alias(aliases, target, other)
                <==> other == name by {
                if is_last_alias(aliases, target, other) {
                    let i = choose|i: int|
                        {
                            &&& 0 <= i < aliases.len()
                            &&& (#[trigger] aliases[i]).target == target
                            &&& aliases[i].alias == other
                            &&& forall|h: int|
                                i < h < aliases.len() ==> (#[trigger] aliases[h]).target != target
                        };
                    if i < n {
                        assert(aliases[n].target != target);
                    }
                }
                if other == name {
                    assert(aliases[n].alias == other);
                }
            }
        } else {
            lemma_alias_for(front, target);
            assert forall|other: Text| #[trigger] is_last_alias(aliases, target, other)
                <==> is_last_alias(front, target, other) by {
                if is_last_alias(aliases, target, other) {
                    let i = choose|i: int|
                        {
                            &&& 0 <= i < aliases.len()
                            &&& (#[trigger] aliases[i]).target == target
                            &&& aliases[i].alias == other
                            &&& forall|h: int|
                                i < h < aliases.len() ==> (#[trigger] aliases[h]).target != target
                        };
                    assert(front[i] == aliases[i]);
                    assert forall|h: int| i < h < front.len() implies (#[trigger] front[h]).target
                        != target by {
                        assert(aliases[h] == front[h]);
                    }
                }
                if is_last_alias(front, target, other) {
                    let i = choose|i: int|
                        {
                            &&& 0 <= i < front.len()
                            &&& (#[trigger] front[i]).target == target
                            &&& front[i].alias == other
                            &&& forall|h: int|
                                i < h < front.len() ==> (#[trigger] front[h]).target != target
                        };
                    assert(front[i] == aliases[i]);
                    assert forall|h: int| i < h < aliases.len() implies (
                    #[trigger] aliases[h]).target != target by {
                        if h < n {
                            assert(aliases[h] == front[h]);
                        }
                    }
                }
            }
            if alias_for(aliases, target) is None {
                assert forall|i: int| 0 <= i < aliases.len() implies (#[trigger] aliases[i]).target
                    != target by {
                    if i < n {
                        assert(front[i].target != target);
                    }
                }
            } else {
                let i = choose|i: int|
                    0 <= i < front.len() && (#[trigger] front[i]).target == target;
                assert(aliases[i].target == target);
            }
        }
    }
}

proof fn lemma_library_alias(
    root_aliases: Seq<DependencyAliasView>,
    context: CrateContextView,
    alias: DependencyAliasView,
)
    ensures
        alias == library_alias(root_aliases, context) <==> is_library_alias(
            root_aliases,
            context,
            alias,
        ),
{
    let own = sanitized(context.pkg_name);
    let target = context.workspace_path_to_crate + ":"@ + own;
    lemma_alias_for(root_aliases, target);
    if is_library_alias(root_aliases, context, alias) {
        if alias_for(root_aliases, target) is None {
            if is_last_alias(root_aliases, alias.target, alias.alias) {
                let i = choose|i: int|
                    {
                        &&& 0 <= i < root_aliases.len()
                        &&& (#[trigger] root_aliases[i]).target == target
                        &&& root_aliases[i].alias == alias.alias
                        &&& forall|h: int|
                            i < h < root_aliases.len() ==> (#[trigger] root_aliases[h]).target
                                != target
                    };
                assert(false);
            }
        } else {
            let i = choose|i: int|
                0 <= i < root_aliases.len() && (#[trigger] root_aliases[i]).target == target;
            assert(root_aliases[i].target == alias.target);
        }
        assert(alias =~= library_alias(root_aliases, context));
    }
    if alias == library_alias(root_aliases, context) && alias_for(root_aliases, target) is Some {
        assert(is_last_alias(root_aliases, target, alias.alias));
    }
}

proof fn lemma_extra_aliases(context: CrateContextView, extras: Seq<Text>, alias: DependencyAliasView)
    ensures
        extras.map_values(
            |extra: Text|
                DependencyAliasView {
                    target: context.workspace_path_to_crate + ":"@ + extra,
                    alias: extra,
                },
        ).to_multiset().count(alias) == (if alias.target == context.workspace_path_to_crate + ":"@
            + alias.alias {
            extras.to_multiset().count(alias.alias)
        } else {
            0nat
        }),
    decreases extras.len(),
{
    broadcast use vstd::seq_lib::group_to_multiset_ensures;

    let f = |extra: Text|
        DependencyAliasView {
            target: context.workspace_path_to_crate + ":"@ + extra,
            alias: extra,
        };
    if extras.len() == 0 {
        assert(extras.map_values(f) =~= Seq::empty());
    } else {
        let front = extras.drop_last();
        lemma_extra_aliases(context, front, alias);
        assert(extras =~= front.push(extras.last()));
        assert(extras.map_values(f) =~= front.map_values(f).push(f(extras.last())));
    }
}

proof fn lemma_declared_times(
    root_aliases: Seq<DependencyAliasView>,
    contexts: Seq<CrateContextView>,
    alias: DependencyAliasView,
)
    requires
        forall|i: int|
            0 <= i < contexts.len() ==> ((#[trigger] contexts[i]).lib_target_name is Some
                <==> has_library(contexts[i])),
    ensures
        declared_aliases(root_aliases, contexts).to_multiset().count(alias) == times_due(
            root_aliases,
            contexts,
            alias,
        ),
    decreases contexts.len(),
{
    broadcast use vstd::seq_lib::group_to_multiset_ensures;

    if contexts.len() == 0 {
        assert(Seq::<DependencyAliasView>::empty().to_multiset().count(alias) == 0);
    } else {
        let front = contexts.drop_last();
        let c = contexts.last();
        assert(contexts[contexts.len() - 1] == c);
        assert forall|i: int| 0 <= i < front.len() implies ((
        #[trigger] front[i]).lib_target_name is Some <==> has_library(front[i])) by {
            assert(front[i] == contexts[i]);
        }
        lemma_declared_times(root_aliases, front, alias);
        lemma_library_alias(root_aliases, c, alias);
        lemma_extra_aliases(c, c.raze_settings.extra_aliased_targets, alias);
        let added = extra_aliases(c).push(library_alias(root_aliases, c));
        vstd::seq_lib::lemma_multiset_commutative(declared_aliases(root_aliases, front), added);
    }
}

proof fn lemma_plan_libraries(view: WorkspaceSubplannerView, i: int)
    requires
        view.planned_build() is Ok,
        0 <= i < view.planned_build()->Ok_0.crate_contexts.len(),
    ensures
        view.planned_build()->Ok_0.crate_contexts[i].lib_target_name is Some <==> has_library(
            view.planned_build()->Ok_0.crate_contexts[i],
        ),
{
    let contexts = view.planned_build()->Ok_0.crate_contexts;
    let c = contexts[i];
    let catalogs = view.all_catalogs();
    let checksums = view.checksums()->Ok_0;
    assert(contexts.contains(c));
    lemma_plan_holds_wanted_crates(view, c);
    let (k, node) = choose|k: int, node: NodeView|
        0 <= k < catalogs.len() && (#[trigger] catalogs[k]).resolve is Some
            && catalogs[k].resolve->Some_0.nodes.contains(node) && #[trigger] plans_node(
            view,
            checksums,
            catalogs[k],
            node,
            c,
        );
    assert(c.lib_target_name == library_name(c.targets));
    lemma_library_name(c.targets);
    if c.lib_target_name is Some {
        let t = choose|t: int|
            0 <= t < c.targets.len() && (#[trigger] c.targets[t]).name == c.lib_target_name->Some_0
                && (c.targets[t].kind == "lib"@ || c.targets[t].kind == "proc-macro"@);
        assert(has_library(c));
    }
}

/// The aliases of a plan are those that are due for its crates, each as often as it is due: for the
/// library of each crate that has one and that the root depends on, whatever else the crate has, and for
/// each further target of it that the settings name. The names are those that the root gives.
pub proof fn lemma_plan_aliases(view: WorkspaceSubplannerView, alias: DependencyAliasView) -> (root:
    CrateContextView)
    requires
        view.planned_build() is Ok,
    ensures
        exists|k: int|
            0 <= k < view.binary_dependencies.len() + 1 && is_root_of_catalog(
                view,
                #[trigger] catalogs_of(view)[k],
                root,
            ),
        view.planned_build()->Ok_0.workspace_aliases.to_multiset().count(alias) == times_due(
            root.default_deps.aliased_dependencies,
            view.planned_build()->Ok_0.crate_contexts,
            alias,
        ),
{
    let n = catalogs_of(view).len() as int;
    let checksums = view.checksums()->Ok_0;
    assert(catalogs_of(view).take(n) =~= view.all_catalogs());
    let parts = lemma_catalogs(view, checksums, n);
    let known = view.with_catalogs(checksums, view.all_catalogs())->Ok_0;
    let root = known.root->Some_0;
    let aliases = root.default_deps.aliased_dependencies;
    let contexts = view.planned_build()->Ok_0.crate_contexts;
    assert forall|i: int| 0 <= i < contexts.len() implies ((
    #[trigger] contexts[i]).lib_target_name is Some <==> has_library(contexts[i])) by {
        lemma_plan_libraries(view, i);
    }
    lemma_declared_times(aliases, contexts, alias);
    lemma_stable_sorted_keeps_items::<DependencyAlias>(declared_aliases(aliases, contexts));
    root
}

proof fn lemma_due(
    root_aliases: Seq<DependencyAliasView>,
    contexts: Seq<CrateContextView>,
    i: int,
    alias: DependencyAliasView,
)
    requires
        0 <= i < contexts.len(),
        contexts[i].is_root_dependency,
        has_library(contexts[i]),
        is_library_alias(root_aliases, contexts[i], alias),
    ensures
        times_due(root_aliases, contexts, alias) > 0,
    decreases contexts.len(),
{
    if i < contexts.len() - 1 {
        assert(contexts.drop_last()[i] == contexts[i]);
        lemma_due(root_aliases, contexts.drop_last(), i, alias);
    }
}

/// Every crate of a plan that the root depends on, and which has a target that is a library or a
/// procedural macro, has an alias for the path of the crate, a colon and its sanitized name: the name
/// that the root gives to it, or else its own.
pub proof fn lemma_every_root_dep_is_aliased(view: WorkspaceSubplannerView, i: int) -> (r: (
    CrateContextView,
    DependencyAliasView,
))
    requires
        view.planned_build() is Ok,
        0 <= i < view.planned_build()->Ok_0.crate_contexts.len(),
        view.planned_build()->Ok_0.crate_contexts[i].is_root_dependency,
        has_library(view.planned_build()->Ok_0.crate_contexts[i]),
    ensures
        exists|k: int|
            0 <= k < view.binary_dependencies.len() + 1 && is_root_of_catalog(
                view,
                #[trigger] catalogs_of(view)[k],
                r.0,
            ),
        is_library_alias(
            r.0.default_deps.aliased_dependencies,
            view.planned_build()->Ok_0.crate_contexts[i],
            r.1,
        ),
        view.planned_build()->Ok_0.workspace_aliases.contains(r.1),
{
    broadcast use vstd::seq_lib::group_to_multiset_ensures;

    let contexts = view.planned_build()->Ok_0.crate_contexts;
    let checksums = view.checksums()->Ok_0;
    let known = view.with_catalogs(checksums, view.all_catalogs())->Ok_0;
    let aliases = known.root->Some_0.default_deps.aliased_dependencies;
    let alias = library_alias(aliases, contexts[i]);
    let n = catalogs_of(view).len() as int;
    assert(catalogs_of(view).take(n) =~= view.all_catalogs());
    let parts = lemma_catalogs(view, checksums, n);
    assert forall|j: int| 0 <= j < contexts.len() implies ((
    #[trigger] contexts[j]).lib_target_name is Some <==> has_library(contexts[j])) by {
        lemma_plan_libraries(view, j);
    }
    lemma_library_alias(aliases, contexts[i], alias);
    lemma_declared_times(aliases, contexts, alias);
    lemma_due(aliases, contexts, i, alias);
    lemma_stable_sorted_keeps_items::<DependencyAlias>(declared_aliases(aliases, contexts));
    (known.root->Some_0, alias)
}

/// The aliases of a plan are in order of their targets, and those of a target in order of their names.
pub proof fn lemma_plan_aliases_are_ordered(view: WorkspaceSubplannerView, i: int, j: int)
    requires
        view.planned_build() is Ok,
        0 <= i < j < view.planned_build()->Ok_0.workspace_aliases.len(),
    ensures
        ({
            let a = view.planned_build()->Ok_0.workspace_aliases[i];
            let b = view.planned_build()->Ok_0.workspace_aliases[j];
            text_before(a.target, b.target) || a.target == b.target && !text_before(b.alias, a.alias)
        }),
{
    let checksums = view.checksums()->Ok_0;
    let known = view.with_catalogs(checksums, view.all_catalogs())->Ok_0;
    let aliases = known.root->Some_0.default_deps.aliased_dependencies;
    let sorted = workspace_aliases(aliases, known.contexts);
    lemma_alias_ranks();
    lemma_stable_sorted::<DependencyAlias>(declared_aliases(aliases, known.contexts));
    assert(in_order::<DependencyAlias>(sorted));
    assert(DependencyAlias::ranks_le(sorted[i], sorted[j]));
}

} // verus!
