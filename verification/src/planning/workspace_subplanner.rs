//! Planning a workspace.

use vstd::prelude::*;

use crate::context::{
    CrateContext, CrateContextView, DependencyAlias, DependencyAliasView, WorkspaceContext,
    WorkspaceContextView,
};
use crate::error::{outcome, RazeError, RazeErrorView, PLEASE_FILE_A_BUG};
use crate::metadata::{
    BinaryDepFiles, BinaryDepFilesView, CargoWorkspaceFiles, CargoWorkspaceFilesView, MetadataView,
    Node, NodeView, Package, PackageView,
};
use crate::planning::checks::{
    check_all_vendored, check_resolve_matches_packages, resolve_check, unused_names,
    unused_settings, vendored_check,
};
use crate::planning::checksums::{checksums_of_files, with_indexed, ChecksumTable, Checksums};
use crate::planning::crate_catalog::{
    catalog_entries, find_entry, missing_resolve, CrateCatalog, CrateCatalogEntryView,
};
use crate::planning::crate_subplanner::{deps_in_order, CrateSubplanner, CrateSubplannerView};
use crate::planning::facts::{WorkspaceFacts, WorkspaceFactsView};
use crate::planning::{PlannedBuild, PlannedBuildView};
use crate::platform::{PlatformDetails, PlatformDetailsView};
use crate::printing::Printed;
use crate::settings::{
    BinaryDependencyView, CrateSettings, CrateSettingsView, GenMode, NamedCrateSettingsView,
    RazeSettings, RazeSettingsView, VersionedCrateSettings, VersionedCrateSettingsView,
};
use crate::sorting::{sort_ranked, stable_sorted, Ranked};
use crate::source::SourceIdView;
use crate::table::Table;
use crate::text::{
    is_before, itertools_join, joined, lemma_text_order_total, lemma_text_order_transitive, same_text,
    sanitize_ident, sanitized, text_le, Text,
};
use crate::version::{version_req_display, version_req_matches};

verus! {

/// Plans a workspace.
pub struct WorkspaceSubplanner<'planner> {
    pub settings: &'planner RazeSettings,
    pub platform_details: &'planner Option<PlatformDetails>,
    pub facts: &'planner WorkspaceFacts,
    pub crate_catalog: &'planner CrateCatalog<'planner>,
    pub files: &'planner CargoWorkspaceFiles,
    /// The catalogs of the crates that are wanted for their binaries.
    pub binary_dependencies: &'planner Vec<CrateCatalog<'planner>>,
    /// The files of these crates.
    pub binary_deps_files: &'planner Table<BinaryDepFiles>,
}

/// What a [`WorkspaceSubplanner`] holds.
#[verifier::ext_equal]
pub struct WorkspaceSubplannerView {
    pub settings: RazeSettingsView,
    pub platform_details: Option<PlatformDetailsView>,
    pub facts: WorkspaceFactsView,
    pub catalog: MetadataView,
    pub files: CargoWorkspaceFilesView,
    pub binary_dependencies: Seq<MetadataView>,
    pub binary_deps_files: Seq<BinaryDepFilesView>,
}

impl<'planner> DeepView for WorkspaceSubplanner<'planner> {
    type V = WorkspaceSubplannerView;

    open spec fn deep_view(&self) -> WorkspaceSubplannerView {
        WorkspaceSubplannerView {
            settings: self.settings.deep_view(),
            platform_details: self.platform_details.deep_view(),
            facts: self.facts.deep_view(),
            catalog: self.crate_catalog.deep_view(),
            files: self.files.deep_view(),
            binary_dependencies: self.binary_dependencies.deep_view(),
            binary_deps_files: self.binary_deps_files.deep_view(),
        }
    }
}

/// Whether a crate of this name is wanted for its binaries.
pub open spec fn is_binary_dep(deps: Seq<BinaryDependencyView>, name: Text) -> bool {
    exists|i: int| 0 <= i < deps.len() && (#[trigger] deps[i]).name == name
}

/// The settings for a crate, by the versions that they are for: the first of `crates` that has its
/// name.
pub open spec fn versions_for(crates: Seq<NamedCrateSettingsView>, name: Text) -> Seq<
    VersionedCrateSettingsView,
>
    decreases crates.len(),
{
    if crates.len() == 0 {
        Seq::empty()
    } else if crates[0].name == name {
        crates[0].versions
    } else {
        versions_for(crates.drop_first(), name)
    }
}

/// The settings that are for this version.
pub open spec fn matching_settings(
    versions: Seq<VersionedCrateSettingsView>,
    version: Text,
) -> Seq<VersionedCrateSettingsView> {
    versions.filter(|v: VersionedCrateSettingsView| version_req_matches(v.req, version))
}

/// The error for several settings that are for one version of a crate.
pub open spec fn ambiguous_settings(
    matching: Seq<VersionedCrateSettingsView>,
    name: Text,
) -> RazeErrorView {
    RazeErrorView::Config {
        field_path_opt: None,
        message: "Multiple potential semver matches `["@ + joined(
            matching.map_values(|v: VersionedCrateSettingsView| version_req_display(v.req)),
            ", "@,
        ) + "]` found for `"@ + name + "`"@,
    }
}

/// The settings for a package: none, or the ones that are for its version.
pub open spec fn settings_for(crates: Seq<NamedCrateSettingsView>, package: PackageView) -> Result<
    Option<CrateSettingsView>,
    RazeErrorView,
> {
    let matching = matching_settings(versions_for(crates, package.name), package.version);
    if matching.len() == 0 {
        Ok(None)
    } else if matching.len() == 1 {
        Ok(Some(matching[0].settings))
    } else {
        Err(ambiguous_settings(matching, package.name))
    }
}

/// The error where no crate is the root of the workspace.
pub open spec fn missing_root() -> RazeErrorView {
    RazeErrorView::Internal("No root context found. "@ + PLEASE_FILE_A_BUG@)
}

/// Whether all lists of dependencies in these contexts are in order.
pub open spec fn all_deps_in_order(contexts: Seq<CrateContextView>) -> bool {
    forall|i: int| 0 <= i < contexts.len() ==> deps_in_order(#[trigger] contexts[i])
}

/// The alias that the root gives to a target, if it gives one: the last in the list.
pub open spec fn alias_for(root_aliases: Seq<DependencyAliasView>, target: Text) -> Option<Text>
    decreases root_aliases.len(),
{
    if root_aliases.len() == 0 {
        None
    } else if root_aliases.last().target == target {
        Some(root_aliases.last().alias)
    } else {
        alias_for(root_aliases.drop_last(), target)
    }
}

/// The alias for the library of a crate: the name that the root gives to it, else its own.
pub open spec fn library_alias(
    root_aliases: Seq<DependencyAliasView>,
    context: CrateContextView,
) -> DependencyAliasView {
    let name = sanitized(context.pkg_name);
    let target = context.workspace_path_to_crate + ":"@ + name;
    DependencyAliasView {
        target,
        alias: match alias_for(root_aliases, target) {
            Some(alias) => alias,
            None => name,
        },
    }
}

/// The aliases for further targets of a crate.
pub open spec fn extra_aliases(context: CrateContextView) -> Seq<DependencyAliasView> {
    context.raze_settings.extra_aliased_targets.map_values(
        |extra: Text|
            DependencyAliasView {
                target: context.workspace_path_to_crate + ":"@ + extra,
                alias: extra,
            },
    )
}

/// Whether a crate gets aliases: the root depends on it, and it has a library.
pub open spec fn gets_aliases(context: CrateContextView) -> bool {
    context.is_root_dependency && context.lib_target_name is Some
}

/// The aliases for all crates, in the order of the crates.
pub open spec fn declared_aliases(
    root_aliases: Seq<DependencyAliasView>,
    contexts: Seq<CrateContextView>,
) -> Seq<DependencyAliasView>
    decreases contexts.len(),
{
    if contexts.len() == 0 {
        Seq::empty()
    } else {
        let before = declared_aliases(root_aliases, contexts.drop_last());
        if gets_aliases(contexts.last()) {
            before + extra_aliases(contexts.last()).push(
                library_alias(root_aliases, contexts.last()),
            )
        } else {
            before
        }
    }
}

/// The aliases for all crates, in order.
pub open spec fn workspace_aliases(
    root_aliases: Seq<DependencyAliasView>,
    contexts: Seq<CrateContextView>,
) -> Seq<DependencyAliasView> {
    stable_sorted::<DependencyAlias>(declared_aliases(root_aliases, contexts))
}

/// The error for a second crate that is the root of the workspace.
#[verifier::opaque]
pub open spec fn second_root(first: CrateContextView, second: CrateContextView) -> RazeErrorView {
    RazeErrorView::Generic(
        "Multiple root contexts found "@ + CrateContext::debug_of(first) + " "@ + Option::<
            CrateContext,
        >::debug_of(Some(second)) + ". "@ + PLEASE_FILE_A_BUG@,
    )
}

/// Contexts, and that of the root where it was met.
#[verifier::ext_equal]
pub struct ContextsView {
    pub contexts: Seq<CrateContextView>,
    pub root: Option<CrateContextView>,
}

impl<'a> Ranked for &'a Node {
    /// By id.
    open spec fn ranks_le(a: NodeView, b: NodeView) -> bool {
        text_le(a.id, b.id)
    }

    open spec fn is_held(a: NodeView) -> bool {
        true
    }

    fn is_item(&self) -> (r: bool) {
        true
    }

    fn may_precede(&self, other: &Self) -> (r: bool) {
        let r = !is_before(other.id.as_str(), self.id.as_str());
        proof {
            let (a, b) = (self.id@, other.id@);
            lemma_text_order_total(a, b);
            if r {
                assert forall|c: NodeView| text_le(c.id, a) implies text_le(c.id, b) by {
                    lemma_text_order_transitive(c.id, a, b);
                }
            }
        }
        r
    }
}

/// The nodes of a graph in order of their ids.
pub open spec fn sorted_nodes(nodes: Seq<NodeView>) -> Seq<NodeView> {
    stable_sorted::<&Node>(nodes)
}

/// What the URL of a package's source says.
pub open spec fn source_id_of_package(package: PackageView) -> Option<SourceIdView> {
    match package.source {
        Some(source) => source.id,
        None => None,
    }
}

impl WorkspaceSubplannerView {
    /// The planner for the crate with this entry and node.
    pub open spec fn crate_subplanner(
        self,
        checksums: Checksums,
        catalog: MetadataView,
        entry: CrateCatalogEntryView,
        node: NodeView,
        crate_settings: Option<CrateSettingsView>,
    ) -> CrateSubplannerView {
        CrateSubplannerView {
            settings: self.settings,
            platform_details: self.platform_details,
            facts: self.facts,
            catalog,
            entry,
            source_id: source_id_of_package(entry.package),
            node,
            crate_settings,
            sha256: checksums.get((entry.package.name, entry.package.version)),
        }
    }

    /// Whether a crate is left out: it belongs to the workspace, is not its root, and is not wanted
    /// for its binaries.
    pub open spec fn is_left_out(self, entry: CrateCatalogEntryView) -> bool {
        entry.is_workspace_crate && !entry.is_root && !is_binary_dep(
            self.settings.binary_deps,
            entry.package.name,
        )
    }

    /// Whether the crate with this node is left out, or enough is known of it to plan it, or to tell
    /// why it cannot be planned: the URL of its source can be read, and, if it comes to planning, the
    /// rest is known too.
    pub open spec fn is_plannable_node(
        self,
        checksums: Checksums,
        catalog: MetadataView,
        node: NodeView,
    ) -> bool {
        find_entry(catalog_entries(catalog), node.id) matches Some(entry) ==> (!self.is_left_out(
            entry,
        ) ==> {
            &&& entry.package.source matches Some(source) ==> source.id is Some
            &&& settings_for(self.settings.crates, entry.package) matches Ok(crate_settings)
                ==> self.crate_subplanner(
                checksums,
                catalog,
                entry,
                node,
                crate_settings,
            ).is_complete()
        })
    }

    /// The context of the crate with this node, if it is not left out.
    pub open spec fn crate_context(
        self,
        checksums: Checksums,
        catalog: MetadataView,
        node: NodeView,
    ) -> Result<Option<CrateContextView>, RazeErrorView> {
        match find_entry(catalog_entries(catalog), node.id) {
            None => Ok(None),
            Some(entry) => if self.is_left_out(entry) {
                Ok(None)
            } else {
                match settings_for(self.settings.crates, entry.package) {
                    Err(error) => Err(error),
                    Ok(crate_settings) => match self.crate_subplanner(
                        checksums,
                        catalog,
                        entry,
                        node,
                        crate_settings,
                    ).context() {
                        Err(error) => Err(error),
                        Ok(context) => Ok(Some(context)),
                    },
                }
            },
        }
    }

    /// Whether the context of the crate with this node is that of the root.
    pub open spec fn is_root_node(self, catalog: MetadataView, node: NodeView) -> bool {
        find_entry(catalog_entries(catalog), node.id) matches Some(entry) && entry.is_root
            && !is_binary_dep(self.settings.binary_deps, entry.package.name)
    }

    /// The context of the root after the crate with this node was planned, and what is said of the
    /// crate. The context of the root is kept apart, and there is one at most.
    pub open spec fn created(
        self,
        root: Option<CrateContextView>,
        checksums: Checksums,
        catalog: MetadataView,
        node: NodeView,
    ) -> (Option<CrateContextView>, Result<Option<CrateContextView>, RazeErrorView>) {
        match self.crate_context(checksums, catalog, node) {
            Err(error) => (root, Err(error)),
            Ok(None) => (root, Ok(None)),
            Ok(Some(context)) => if !self.is_root_node(catalog, node) {
                (root, Ok(Some(context)))
            } else {
                match root {
                    Some(first) => (
                        Some(context),
                        Err(second_root(first, context)),
                    ),
                    None => (Some(context), Ok(None)),
                }
            },
        }
    }

    /// What is known with the crate of one more node.
    pub open spec fn with_node(
        self,
        before: ContextsView,
        checksums: Checksums,
        catalog: MetadataView,
        node: NodeView,
    ) -> Result<ContextsView, RazeErrorView> {
        let (root, context) = self.created(before.root, checksums, catalog, node);
        match context {
            Err(error) => Err(error),
            Ok(None) => Ok(ContextsView { contexts: before.contexts, root }),
            Ok(Some(context)) => Ok(
                ContextsView { contexts: before.contexts.push(context), root },
            ),
        }
    }

    /// What is known with the crates of some nodes.
    pub open spec fn with_nodes(
        self,
        before: ContextsView,
        checksums: Checksums,
        catalog: MetadataView,
        nodes: Seq<NodeView>,
    ) -> Result<ContextsView, RazeErrorView>
        decreases nodes.len(),
    {
        if nodes.len() == 0 {
            Ok(before)
        } else {
            match self.with_nodes(before, checksums, catalog, nodes.drop_last()) {
                Err(error) => Err(error),
                Ok(known) => self.with_node(known, checksums, catalog, nodes.last()),
            }
        }
    }

    /// What is known with the crates of some catalogs.
    pub open spec fn with_catalogs(self, checksums: Checksums, catalogs: Seq<MetadataView>) -> Result<
        ContextsView,
        RazeErrorView,
    >
        decreases catalogs.len(),
    {
        if catalogs.len() == 0 {
            Ok(ContextsView { contexts: Seq::empty(), root: None })
        } else {
            match self.with_catalogs(checksums, catalogs.drop_last()) {
                Err(error) => Err(error),
                Ok(known) => match catalogs.last().resolve {
                    None => Err(missing_resolve()),
                    Some(resolve) => self.with_nodes(
                        known,
                        checksums,
                        catalogs.last(),
                        sorted_nodes(resolve.nodes),
                    ),
                },
            }
        }
    }

    /// Whether this holds of the nodes that are looked at. None is looked at behind one that cannot be
    /// planned.
    pub open spec fn are_plannable_nodes(
        self,
        before: ContextsView,
        checksums: Checksums,
        catalog: MetadataView,
        nodes: Seq<NodeView>,
    ) -> bool {
        forall|i: int|
            0 <= i < nodes.len() && self.with_nodes(
                before,
                checksums,
                catalog,
                #[trigger] nodes.take(i),
            ) is Ok ==> self.is_plannable_node(checksums, catalog, nodes[i])
    }

    /// Whether this holds of the nodes of a catalog, which come in order.
    pub open spec fn is_plannable_catalog(
        self,
        before: ContextsView,
        checksums: Checksums,
        catalog: MetadataView,
    ) -> bool {
        self.are_plannable_nodes(
            before,
            checksums,
            catalog,
            sorted_nodes(catalog.resolve->Some_0.nodes),
        )
    }

    /// Whether this holds of the catalogs that are looked at.
    pub open spec fn are_plannable_catalogs(
        self,
        checksums: Checksums,
        catalogs: Seq<MetadataView>,
    ) -> bool {
        forall|k: int|
            0 <= k < catalogs.len() ==> (self.with_catalogs(
                checksums,
                #[trigger] catalogs.take(k),
            ) matches Ok(known) ==> self.is_plannable_catalog(known, checksums, catalogs[k]))
    }

    /// Whether enough is known of all crates that are looked at.
    pub open spec fn is_plannable(self) -> bool {
        self.checksums() matches Ok(checksums) ==> self.are_plannable_catalogs(
            checksums,
            self.all_catalogs(),
        )
    }

    /// The files whose lock files tell checksums. Those of the workspace come last.
    pub open spec fn all_files(self) -> Seq<CargoWorkspaceFilesView> {
        self.binary_deps_files.map_values(|f: BinaryDepFilesView| f.files).push(self.files)
    }

    /// The checksums of all packages. Where Bazel fetches them, those of the crates that are wanted
    /// for their binaries come from the index.
    pub open spec fn checksums(self) -> Result<Checksums, RazeErrorView> {
        match checksums_of_files(self.all_files()) {
            Err(error) => Err(error),
            Ok(table) => if self.settings.genmode == GenMode::Remote {
                with_indexed(table, self.settings.binary_deps, self.facts)
            } else {
                Ok(table)
            },
        }
    }

    /// The catalogs of all crates. That of the workspace comes first.
    pub open spec fn all_catalogs(self) -> Seq<MetadataView> {
        seq![self.catalog] + self.binary_dependencies
    }

    /// The contexts of all crates, and the aliases.
    pub open spec fn crate_contexts(self) -> Result<
        (Seq<CrateContextView>, Seq<DependencyAliasView>),
        RazeErrorView,
    > {
        match self.checksums() {
            Err(error) => Err(error),
            Ok(checksums) => match self.with_catalogs(checksums, self.all_catalogs()) {
                Err(error) => Err(error),
                Ok(known) => match known.root {
                    None => Err(missing_root()),
                    Some(root) => Ok(
                        (
                            known.contexts,
                            workspace_aliases(root.default_deps.aliased_dependencies, known.contexts),
                        ),
                    ),
                },
            },
        }
    }

    /// The context of the workspace.
    pub open spec fn workspace_context(self) -> WorkspaceContextView {
        WorkspaceContextView {
            workspace_path: self.settings.workspace_path,
            gen_workspace_prefix: self.settings.gen_workspace_prefix,
            output_buildfile_suffix: self.settings.output_buildfile_suffix,
        }
    }
}

/// What the checks of some dependency graphs say: what the first that fails says.
pub open spec fn resolve_checks(catalogs: Seq<MetadataView>) -> Result<(), RazeErrorView>
    decreases catalogs.len(),
{
    if catalogs.len() == 0 {
        Ok(())
    } else {
        match resolve_checks(catalogs.drop_last()) {
            Err(error) => Err(error),
            Ok(()) => resolve_check(catalogs.last()),
        }
    }
}

impl WorkspaceSubplannerView {
    /// What the checks that come before planning say.
    pub open spec fn checks(self) -> Result<(), RazeErrorView> {
        match resolve_check(self.catalog) {
            Err(error) => Err(error),
            Ok(()) => match self.settings.genmode {
                GenMode::Remote => resolve_checks(self.binary_dependencies),
                GenMode::Vendored => vendored_check(
                    catalog_entries(self.catalog),
                    self.facts.vendored_crates,
                    self.settings.workspace_path,
                ),
                GenMode::Unspecified => Ok(()),
            },
        }
    }

    /// The planned build.
    pub open spec fn planned_build(self) -> Result<PlannedBuildView, RazeErrorView> {
        match self.checks() {
            Err(error) => Err(error),
            Ok(()) => match self.crate_contexts() {
                Err(error) => Err(error),
                Ok((crate_contexts, aliases)) => Ok(
                    PlannedBuildView {
                        workspace_context: self.workspace_context(),
                        crate_contexts,
                        workspace_aliases: aliases,
                        binary_crate_files: self.binary_deps_files,
                    },
                ),
            },
        }
    }
}

/// The packages of all these catalogs.
pub open spec fn packages_of(catalogs: Seq<MetadataView>) -> Seq<PackageView>
    decreases catalogs.len(),
{
    if catalogs.len() == 0 {
        Seq::empty()
    } else {
        packages_of(catalogs.drop_last()) + catalogs.last().packages
    }
}

impl WorkspaceSubplannerView {
    /// The packages that settings can be for. Where Bazel does not fetch the sources, those of the
    /// crates that are wanted for their binaries are none of them.
    pub open spec fn checked_packages(self) -> Seq<PackageView> {
        if self.settings.genmode == GenMode::Remote {
            packages_of(self.all_catalogs())
        } else {
            self.catalog.packages
        }
    }

    /// The crates that settings are for and that no package is, as far as the checks that come before
    /// planning pass.
    pub open spec fn unused_settings(self) -> Seq<Text> {
        if self.checks() is Ok {
            unused_names(self.settings.crates, self.checked_packages())
        } else {
            Seq::empty()
        }
    }
}

impl<'planner> WorkspaceSubplanner<'planner> {
    /// The context of the workspace.
    pub fn produce_workspace_context(&self) -> (r: WorkspaceContext)
        ensures
            r.deep_view() == self.deep_view().workspace_context(),
    {
        WorkspaceContext {
            workspace_path: self.settings.workspace_path.clone(),
            gen_workspace_prefix: self.settings.gen_workspace_prefix.clone(),
            output_buildfile_suffix: self.settings.output_buildfile_suffix.clone(),
        }
    }

    /// Whether a crate of this name is wanted for its binaries.
    fn is_binary_dep(&self, name: &str) -> (r: bool)
        ensures
            r == is_binary_dep(self.deep_view().settings.binary_deps, name@),
    {
        let binary_deps = self.settings.binary_deps.items();
        let ghost deps = self.deep_view().settings.binary_deps;
        let mut i: usize = 0;
        while i < binary_deps.len()
            invariant
                deps == binary_deps.deep_view(),
                deps == self.deep_view().settings.binary_deps,
                i <= binary_deps.len(),
                forall|j: int| 0 <= j < i ==> (#[trigger] deps[j]).name != name@,
            decreases binary_deps.len() - i,
        {
            assert(deps[i as int] == binary_deps@[i as int].deep_view());
            if same_text(binary_deps[i].name.as_str(), name) {
                return true;
            }
            i = i + 1;
        }
        false
    }

    /// The settings for a crate, by the versions that they are for.
    fn versions_for(&self, name: &str) -> (r: Option<&'planner Vec<VersionedCrateSettings>>)
        ensures
            match r {
                Some(versions) => versions.deep_view(),
                None => Seq::empty(),
            } == versions_for(self.deep_view().settings.crates, name@),
    {
        let crates = self.settings.crates.items();
        let ghost all = crates.deep_view();
        let mut i: usize = 0;
        assert(all.skip(0) =~= all);
        while i < crates.len()
            invariant
                all == crates.deep_view(),
                all == self.deep_view().settings.crates,
                i <= crates.len(),
                versions_for(all, name@) == versions_for(all.skip(i as int), name@),
            decreases crates.len() - i,
        {
            assert(all.skip(i as int)[0] == crates@[i as int].deep_view());
            if same_text(crates[i].name.as_str(), name) {
                assert(versions_for(all.skip(i as int), name@) == all[i as int].versions);
                return Some(crates[i].versions.items());
            }
            assert(all.skip(i as int).drop_first() =~= all.skip(i + 1));
            i = i + 1;
        }
        None
    }

    /// The settings for a package. Fails if there are several for its version.
    pub fn crate_settings(&self, package: &Package) -> (r: Result<
        Option<&'planner CrateSettings>,
        RazeError,
    >)
        ensures
            outcome(r) == settings_for(self.deep_view().settings.crates, package.deep_view()),
    {
        let ghost crates = self.deep_view().settings.crates;
        let ghost p = package.deep_view();
        let versions = match self.versions_for(package.name.as_str()) {
            Some(versions) => versions,
            None => {
                proof {
                    reveal(Seq::filter);
                    assert(versions_for(crates, p.name).len() == 0);
                }
                return Ok(None);
            },
        };
        let ghost all = versions.deep_view();
        let mut matching: Vec<&'planner VersionedCrateSettings> = Vec::new();
        let mut reqs: Vec<String> = Vec::new();
        let mut i: usize = 0;
        proof {
            reveal(Seq::filter);
            assert(all.take(0).len() == 0);
            assert(matching.deep_view() =~= matching_settings(all.take(0), p.version));
        }
        while i < versions.len()
            invariant
                all == versions.deep_view(),
                p == package.deep_view(),
                i <= versions.len(),
                matching.deep_view() == matching_settings(all.take(i as int), p.version),
                reqs.deep_view() == matching.deep_view().map_values(
                    |v: VersionedCrateSettingsView| version_req_display(v.req),
                ),
            decreases versions.len() - i,
        {
            let v = &versions[i];
            let ghost before = matching.deep_view();
            let ghost before_reqs = reqs.deep_view();
            proof {
                lemma_matching_settings_push(all.take(i as int), p.version, v.deep_view());
                assert(all.take(i as int).push(v.deep_view()) =~= all.take(i + 1));
            }
            if v.req.matches(&package.version) {
                matching.push(v);
                reqs.push(v.req.to_text());
                assert(matching.deep_view() =~= before.push(v.deep_view()));
                assert(reqs.deep_view() =~= before_reqs.push(version_req_display(v.deep_view().req)));
                assert(reqs.deep_view() =~= matching.deep_view().map_values(
                    |v: VersionedCrateSettingsView| version_req_display(v.req),
                ));
            }
            i = i + 1;
        }
        assert(all.take(i as int) =~= all);
        if matching.len() == 0 {
            return Ok(None);
        }
        if matching.len() == 1 {
            assert(matching.deep_view()[0] == matching@[0].deep_view());
            return Ok(Some(&matching[0].settings));
        }
        proof {
            reveal_strlit(", ");
        }
        let printed = itertools_join(&reqs, ", ");
        Err(
            RazeError::Config {
                field_path_opt: None,
                message: "Multiple potential semver matches `[".to_owned().concat(
                    printed.as_str(),
                ).concat("]` found for `").concat(package.name.as_str()).concat("`"),
            },
        )
    }
}

impl<'planner> WorkspaceSubplanner<'planner> {
    /// Plans the crate with this node. The context of the root goes to `root_ctx`.
    pub fn create_crate_context(
        &self,
        node: &Node,
        package_to_checksum: &ChecksumTable,
        catalog: &CrateCatalog<'_>,
        root_ctx: &mut Option<CrateContext>,
    ) -> (r: Result<Option<CrateContext>, RazeError>)
        requires
            self.deep_view().is_plannable_node(
                package_to_checksum.deep_view(),
                catalog.deep_view(),
                node.deep_view(),
            ),
        ensures
            r matches Ok(Some(context)) ==> deps_in_order(context.deep_view()),
            (final(root_ctx).deep_view(), outcome(r)) == self.deep_view().created(
                old(root_ctx).deep_view(),
                package_to_checksum.deep_view(),
                catalog.deep_view(),
                node.deep_view(),
            ),
    {
        let own_entry = match catalog.entry_for_package_id(node.id.as_str()) {
            Some(entry) => entry,
            None => {
                return Ok(None);
            },
        };
        let own_package = own_entry.package();
        let checksum = package_to_checksum.get(own_package.name.as_str(), &own_package.version);
        let is_root = own_entry.is_root();
        let is_binary_dep = self.is_binary_dep(own_package.name.as_str());
        // The crates of the workspace are built from where they are. Those that are wanted for their
        // binaries are built like any other crate.
        if !(is_binary_dep || is_root) && own_entry.is_workspace_crate() {
            return Ok(None);
        }
        let no_source = None;
        let own_source_id = match &own_package.source {
            Some(source) => source.id(),
            None => &no_source,
        };
        let crate_settings = match self.crate_settings(own_package) {
            Ok(settings) => settings,
            Err(error) => {
                return Err(error);
            },
        };
        let crate_subplanner = CrateSubplanner {
            settings: self.settings,
            platform_details: self.platform_details,
            facts: self.facts,
            crate_catalog: catalog,
            crate_catalog_entry: own_entry,
            source_id: own_source_id,
            node,
            crate_settings,
            sha256: &checksum,
        };
        assert(crate_subplanner.deep_view() == self.deep_view().crate_subplanner(
            package_to_checksum.deep_view(),
            catalog.deep_view(),
            own_entry.deep_view(),
            node.deep_view(),
            crate_settings.deep_view(),
        ));
        let context = match crate_subplanner.produce_context() {
            Ok(context) => context,
            Err(error) => {
                return Err(error);
            },
        };
        if is_root && !is_binary_dep {
            match root_ctx.take() {
                Some(first) => {
                    *root_ctx = Some(context);
                    proof {
                        reveal(second_root);
                    }
                    return Err(
                        RazeError::Generic(
                            "Multiple root contexts found ".to_owned().concat(
                                first.debug_text().as_str(),
                            ).concat(" ").concat(root_ctx.debug_text().as_str()).concat(
                                ". ",
                            ).concat(PLEASE_FILE_A_BUG),
                        ),
                    );
                },
                None => {
                    *root_ctx = Some(context);
                    return Ok(None);
                },
            }
        }
        Ok(Some(context))
    }

    /// Gives aliases to the crates that the root depends on, and to their further targets.
    pub fn produce_workspace_aliases(
        &self,
        root_dependency_aliases: &Vec<DependencyAlias>,
        all_packages: &Vec<CrateContext>,
    ) -> (r: Vec<DependencyAlias>)
        ensures
            r.deep_view() == workspace_aliases(
                root_dependency_aliases.deep_view(),
                all_packages.deep_view(),
            ),
    {
        let ghost roots = root_dependency_aliases.deep_view();
        let ghost all = all_packages.deep_view();
        let mut aliases: Vec<DependencyAlias> = Vec::new();
        let mut i: usize = 0;
        assert(all.take(0) =~= Seq::empty());
        assert(aliases.deep_view() =~= Seq::empty());
        while i < all_packages.len()
            invariant
                roots == root_dependency_aliases.deep_view(),
                all == all_packages.deep_view(),
                i <= all_packages.len(),
                aliases.deep_view() == declared_aliases(roots, all.take(i as int)),
            decreases all_packages.len() - i,
        {
            let to_alias = &all_packages[i];
            proof {
                assert(all.take(i + 1).drop_last() =~= all.take(i as int));
                assert(all.take(i + 1).last() == to_alias.deep_view());
            }
            if to_alias.is_root_dependency && to_alias.lib_target_name.is_some() {
                let path = &to_alias.workspace_path_to_crate;
                let extra_targets = &to_alias.raze_settings.extra_aliased_targets;
                let ghost before = aliases.deep_view();
                let ghost extras = extra_aliases(to_alias.deep_view());
                let mut k: usize = 0;
                assert(before + extras.take(0) =~= before);
                while k < extra_targets.len()
                    invariant
                        path@ == to_alias.deep_view().workspace_path_to_crate,
                        extra_targets.deep_view()
                            == to_alias.deep_view().raze_settings.extra_aliased_targets,
                        extras == extra_aliases(to_alias.deep_view()),
                        k <= extra_targets.len(),
                        aliases.deep_view() == before + extras.take(k as int),
                    decreases extra_targets.len() - k,
                {
                    let ghost now = aliases.deep_view();
                    let extra = &extra_targets[k];
                    assert(extra_targets.deep_view()[k as int] == extra@);
                    aliases.push(
                        DependencyAlias {
                            target: path.clone().concat(":").concat(extra.as_str()),
                            alias: extra.clone(),
                        },
                    );
                    assert(aliases.deep_view() =~= now.push(extras[k as int]));
                    assert(now.push(extras[k as int]) =~= before + extras.take(k + 1));
                    k = k + 1;
                }
                let ghost now = aliases.deep_view();
                let name = sanitize_ident(to_alias.pkg_name.as_str());
                let target = path.clone().concat(":").concat(name.as_str());
                let alias = match find_alias(root_dependency_aliases, target.as_str()) {
                    Some(alias) => alias,
                    None => name,
                };
                aliases.push(DependencyAlias { target, alias });
                proof {
                    let own = library_alias(roots, to_alias.deep_view());
                    assert(aliases.deep_view() =~= now.push(own));
                    assert(now.push(own) =~= before + extras.push(own));
                }
            }
            i = i + 1;
        }
        assert(all.take(i as int) =~= all);
        sort_ranked(aliases)
    }
}

/// The alias that the root gives to a target, if it gives one.
fn find_alias(root_aliases: &Vec<DependencyAlias>, target: &str) -> (r: Option<String>)
    ensures
        r.deep_view() == alias_for(root_aliases.deep_view(), target@),
{
    let ghost all = root_aliases.deep_view();
    let mut i: usize = root_aliases.len();
    assert(all.take(i as int) =~= all);
    while i > 0
        invariant
            all == root_aliases.deep_view(),
            i <= root_aliases.len(),
            alias_for(all, target@) == alias_for(all.take(i as int), target@),
        decreases i,
    {
        let ghost front = all.take(i as int);
        i = i - 1;
        let alias = &root_aliases[i];
        assert(front.last() == alias.deep_view());
        assert(front.drop_last() =~= all.take(i as int));
        if same_text(alias.target.as_str(), target) {
            return Some(alias.alias.clone());
        }
    }
    None
}

proof fn lemma_with_nodes_stops(
    view: WorkspaceSubplannerView,
    before: ContextsView,
    checksums: Checksums,
    catalog: MetadataView,
    nodes: Seq<NodeView>,
    n: int,
)
    requires
        0 <= n <= nodes.len(),
    ensures
        view.with_nodes(before, checksums, catalog, nodes.take(n)) matches Err(error)
            ==> view.with_nodes(before, checksums, catalog, nodes) == Err::<
            ContextsView,
            RazeErrorView,
        >(error),
    decreases nodes.len() - n,
{
    if n < nodes.len() {
        assert(nodes.take(n + 1).drop_last() =~= nodes.take(n));
        lemma_with_nodes_stops(view, before, checksums, catalog, nodes, n + 1);
    } else {
        assert(nodes.take(n) =~= nodes);
    }
}

proof fn lemma_with_catalogs_stops(
    view: WorkspaceSubplannerView,
    checksums: Checksums,
    catalogs: Seq<MetadataView>,
    n: int,
)
    requires
        0 <= n <= catalogs.len(),
    ensures
        view.with_catalogs(checksums, catalogs.take(n)) matches Err(error) ==> view.with_catalogs(
            checksums,
            catalogs,
        ) == Err::<ContextsView, RazeErrorView>(error),
    decreases catalogs.len() - n,
{
    if n < catalogs.len() {
        assert(catalogs.take(n + 1).drop_last() =~= catalogs.take(n));
        lemma_with_catalogs_stops(view, checksums, catalogs, n + 1);
    } else {
        assert(catalogs.take(n) =~= catalogs);
    }
}

/// Adds references to packages to a list.
fn add_packages<'p>(packages: &mut Vec<&'p Package>, more: &'p Vec<Package>)
    ensures
        final(packages).deep_view() == old(packages).deep_view() + more.deep_view(),
{
    let ghost first = packages.deep_view();
    let ghost all = more.deep_view();
    let mut i: usize = 0;
    assert(first + all.take(0) =~= first);
    while i < more.len()
        invariant
            all == more.deep_view(),
            i <= more.len(),
            packages.deep_view() == first + all.take(i as int),
        decreases more.len() - i,
    {
        let ghost before = packages.deep_view();
        packages.push(&more[i]);
        assert(packages.deep_view() =~= before.push(all[i as int]));
        assert(before.push(all[i as int]) =~= first + all.take(i + 1));
        i = i + 1;
    }
    assert(all.take(i as int) =~= all);
}

/// The nodes of a graph in order of their ids.
fn sort_nodes<'a>(nodes: &'a Vec<Node>) -> (r: Vec<&'a Node>)
    ensures
        r.deep_view() == sorted_nodes(nodes.deep_view()),
{
    let mut refs: Vec<&'a Node> = Vec::new();
    let mut i: usize = 0;
    assert(refs.deep_view() =~= nodes.deep_view().take(0));
    while i < nodes.len()
        invariant
            i <= nodes.len(),
            refs.deep_view() == nodes.deep_view().take(i as int),
        decreases nodes.len() - i,
    {
        let ghost before = refs.deep_view();
        refs.push(&nodes[i]);
        assert(refs.deep_view() =~= before.push(nodes.deep_view()[i as int]));
        assert(nodes.deep_view().take(i + 1) =~= before.push(nodes.deep_view()[i as int]));
        i = i + 1;
    }
    assert(nodes.deep_view().take(i as int) =~= nodes.deep_view());
    sort_ranked(refs)
}

proof fn lemma_nodes_plannable_behind_error(
    view: WorkspaceSubplannerView,
    before: ContextsView,
    checksums: Checksums,
    catalog: MetadataView,
    nodes: Seq<NodeView>,
    n: int,
)
    requires
        0 <= n <= nodes.len(),
        view.with_nodes(before, checksums, catalog, nodes.take(n)) is Err,
        forall|i: int| 0 <= i < n ==> view.is_plannable_node(checksums, catalog, #[trigger] nodes[i]),
    ensures
        view.are_plannable_nodes(before, checksums, catalog, nodes),
{
    assert forall|i: int|
        0 <= i < nodes.len() && view.with_nodes(
            before,
            checksums,
            catalog,
            #[trigger] nodes.take(i),
        ) is Ok implies view.is_plannable_node(checksums, catalog, nodes[i]) by {
        if i >= n {
            assert(nodes.take(i).take(n) =~= nodes.take(n));
            lemma_with_nodes_stops(view, before, checksums, catalog, nodes.take(i), n);
        }
    }
}

proof fn lemma_with_one_more_catalog(
    view: WorkspaceSubplannerView,
    checksums: Checksums,
    catalogs: Seq<MetadataView>,
    n: int,
    known: ContextsView,
)
    requires
        0 <= n < catalogs.len(),
        catalogs[n].resolve is Some,
        view.with_catalogs(checksums, catalogs.take(n)) == Ok::<ContextsView, RazeErrorView>(known),
    ensures
        view.with_catalogs(checksums, catalogs.take(n + 1)) == view.with_nodes(
            known,
            checksums,
            catalogs[n],
            sorted_nodes(catalogs[n].resolve->Some_0.nodes),
        ),
{
    assert(catalogs.take(n + 1).drop_last() =~= catalogs.take(n));
    assert(catalogs.take(n + 1).last() == catalogs[n]);
}

proof fn lemma_not_plannable(
    view: WorkspaceSubplannerView,
    checksums: Checksums,
    catalogs: Seq<MetadataView>,
    n: int,
    known: ContextsView,
)
    requires
        0 <= n < catalogs.len(),
        view.with_catalogs(checksums, catalogs.take(n)) == Ok::<ContextsView, RazeErrorView>(known),
        !view.is_plannable_catalog(known, checksums, catalogs[n]),
    ensures
        !view.are_plannable_catalogs(checksums, catalogs),
{
}

proof fn lemma_catalogs_plannable_behind_error(
    view: WorkspaceSubplannerView,
    checksums: Checksums,
    catalogs: Seq<MetadataView>,
    n: int,
)
    requires
        0 <= n <= catalogs.len(),
        view.with_catalogs(checksums, catalogs.take(n)) is Err,
        forall|k: int|
            0 <= k < n ==> (view.with_catalogs(checksums, #[trigger] catalogs.take(k)) matches Ok(
                known,
            ) ==> view.is_plannable_catalog(known, checksums, catalogs[k])),
    ensures
        view.are_plannable_catalogs(checksums, catalogs),
{
    assert forall|k: int|
        0 <= k < catalogs.len() && view.with_catalogs(
            checksums,
            #[trigger] catalogs.take(k),
        ) is Ok implies view.is_plannable_catalog(
        view.with_catalogs(checksums, catalogs.take(k))->Ok_0,
        checksums,
        catalogs[k],
    ) by {
        if k >= n {
            assert(catalogs.take(k).take(n) =~= catalogs.take(n));
            lemma_with_catalogs_stops(view, checksums, catalogs.take(k), n);
        }
    }
}

impl<'planner> WorkspaceSubplanner<'planner> {
    /// Whether the crate with this node is left out, or enough is known of it to plan it, or to tell
    /// why it cannot be planned.
    pub fn is_plannable_node(
        &self,
        node: &Node,
        package_to_checksum: &ChecksumTable,
        catalog: &CrateCatalog<'_>,
    ) -> (r: bool)
        ensures
            r == self.deep_view().is_plannable_node(
                package_to_checksum.deep_view(),
                catalog.deep_view(),
                node.deep_view(),
            ),
    {
        let entry = match catalog.entry_for_package_id(node.id.as_str()) {
            Some(entry) => entry,
            None => {
                return true;
            },
        };
        let package = entry.package();
        if entry.is_workspace_crate() && !entry.is_root() && !self.is_binary_dep(
            package.name.as_str(),
        ) {
            return true;
        }
        let no_source = None;
        let source_id = match &package.source {
            Some(source) => {
                let id = source.id();
                if id.is_none() {
                    return false;
                }
                id
            },
            None => &no_source,
        };
        let crate_settings = match self.crate_settings(package) {
            Ok(settings) => settings,
            Err(_) => {
                return true;
            },
        };
        let checksum = package_to_checksum.get(package.name.as_str(), &package.version);
        let crate_subplanner = CrateSubplanner {
            settings: self.settings,
            platform_details: self.platform_details,
            facts: self.facts,
            crate_catalog: catalog,
            crate_catalog_entry: entry,
            source_id,
            node,
            crate_settings,
            sha256: &checksum,
        };
        assert(crate_subplanner.deep_view() == self.deep_view().crate_subplanner(
            package_to_checksum.deep_view(),
            catalog.deep_view(),
            entry.deep_view(),
            node.deep_view(),
            crate_settings.deep_view(),
        ));
        crate_subplanner.is_complete()
    }

    /// Plans the crates of a catalog, and adds their contexts to `contexts`. Nothing comes of it where
    /// too little is known of a crate that is looked at.
    #[verifier::spinoff_prover]
    fn add_catalog_contexts(
        &self,
        contexts: &mut Vec<CrateContext>,
        root_ctx: &mut Option<CrateContext>,
        package_to_checksum: &ChecksumTable,
        catalog: &CrateCatalog<'_>,
    ) -> (r: Option<Result<(), RazeError>>)
        requires
            all_deps_in_order(old(contexts).deep_view()),
        ensures
            catalog.deep_view().resolve is Some,
            r is Some <==> self.deep_view().is_plannable_catalog(
                ContextsView {
                    contexts: old(contexts).deep_view(),
                    root: old(root_ctx).deep_view(),
                },
                package_to_checksum.deep_view(),
                catalog.deep_view(),
            ),
            r matches Some(Ok(())) ==> all_deps_in_order(final(contexts).deep_view()),
            r matches Some(planned) ==> match planned {
                Ok(()) => Ok(
                    ContextsView {
                        contexts: final(contexts).deep_view(),
                        root: final(root_ctx).deep_view(),
                    },
                ),
                Err(error) => Err(error.deep_view()),
            } == self.deep_view().with_nodes(
                ContextsView {
                    contexts: old(contexts).deep_view(),
                    root: old(root_ctx).deep_view(),
                },
                package_to_checksum.deep_view(),
                catalog.deep_view(),
                sorted_nodes(catalog.deep_view().resolve->Some_0.nodes),
            ),
    {
        let ghost view = self.deep_view();
        let ghost first = ContextsView {
            contexts: contexts.deep_view(),
            root: root_ctx.deep_view(),
        };
        let ghost checksums = package_to_checksum.deep_view();
        let ghost metadata = catalog.deep_view();
        let ghost all = sorted_nodes(metadata.resolve->Some_0.nodes);
        let nodes = match &catalog.metadata().resolve {
            Some(resolve) => sort_nodes(&resolve.nodes),
            None => Vec::new(),
        };
        let mut i: usize = 0;
        assert(all.take(0) =~= Seq::empty());
        while i < nodes.len()
            invariant
                view == self.deep_view(),
                first == (ContextsView {
                    contexts: old(contexts).deep_view(),
                    root: old(root_ctx).deep_view(),
                }),
                checksums == package_to_checksum.deep_view(),
                metadata == catalog.deep_view(),
                metadata.resolve is Some,
                all == sorted_nodes(metadata.resolve->Some_0.nodes),
                all == nodes.deep_view(),
                all_deps_in_order(contexts.deep_view()),
                i <= nodes.len(),
                forall|j: int|
                    0 <= j < i ==> view.is_plannable_node(checksums, metadata, #[trigger] all[j]),
                view.with_nodes(first, checksums, metadata, all.take(i as int)) == Ok::<
                    ContextsView,
                    RazeErrorView,
                >(
                    ContextsView { contexts: contexts.deep_view(), root: root_ctx.deep_view() },
                ),
            decreases nodes.len() - i,
        {
            let node = nodes[i];
            proof {
                assert(all[i as int] == node.deep_view());
                assert(all.take(i + 1).drop_last() =~= all.take(i as int));
                assert(all.take(i + 1).last() == node.deep_view());
                lemma_with_nodes_stops(view, first, checksums, metadata, all, i + 1);
            }
            if !self.is_plannable_node(node, package_to_checksum, catalog) {
                assert(view.with_nodes(first, checksums, metadata, all.take(i as int)) is Ok);
                return None;
            }
            let ghost before = contexts.deep_view();
            match self.create_crate_context(node, package_to_checksum, catalog, root_ctx) {
                Ok(Some(context)) => {
                    contexts.push(context);
                    assert(contexts.deep_view() =~= before.push(context.deep_view()));
                },
                Ok(None) => {},
                Err(error) => {
                    proof {
                        lemma_nodes_plannable_behind_error(
                            view,
                            first,
                            checksums,
                            metadata,
                            all,
                            i + 1,
                        );
                    }
                    return Some(Err(error));
                },
            }
            i = i + 1;
        }
        assert(all.take(i as int) =~= all);
        Some(Ok(()))
    }

    /// The checksums of all packages.
    fn gather_checksums(&self) -> (r: Result<ChecksumTable, RazeError>)
        ensures
            outcome(r) == self.deep_view().checksums(),
    {
        let ghost view = self.deep_view();
        let binary_deps_files = self.binary_deps_files.items();
        let mut files: Vec<&CargoWorkspaceFiles> = Vec::new();
        let ghost bin_files = view.binary_deps_files.map_values(|f: BinaryDepFilesView| f.files);
        let mut i: usize = 0;
        assert(files.deep_view() =~= bin_files.take(0));
        while i < binary_deps_files.len()
            invariant
                bin_files == binary_deps_files.deep_view().map_values(
                    |f: BinaryDepFilesView| f.files,
                ),
                i <= binary_deps_files.len(),
                files.deep_view() == bin_files.take(i as int),
            decreases binary_deps_files.len() - i,
        {
            let ghost before = files.deep_view();
            files.push(&binary_deps_files[i].files);
            assert(files.deep_view() =~= before.push(bin_files[i as int]));
            assert(bin_files.take(i + 1) =~= before.push(bin_files[i as int]));
            i = i + 1;
        }
        assert(bin_files.take(i as int) =~= bin_files);
        files.push(self.files);
        assert(files.deep_view() =~= bin_files.push(self.files.deep_view()));
        assert(files.deep_view() =~= view.all_files());
        let mut package_to_checksum = match ChecksumTable::from_files(&files) {
            Ok(table) => table,
            Err(error) => {
                return Err(error);
            },
        };
        // Sources that are checked in have no use for the checksums of the registry.
        if self.settings.genmode == GenMode::Remote {
            match package_to_checksum.add_indexed(self.settings.binary_deps.items(), self.facts) {
                Ok(()) => {},
                Err(error) => {
                    return Err(error);
                },
            }
        }
        Ok(package_to_checksum)
    }

    /// The catalogs of all crates.
    fn list_catalogs(&self) -> (r: Vec<&'planner CrateCatalog<'planner>>)
        ensures
            r.deep_view() == self.deep_view().all_catalogs(),
    {
        let ghost all = self.deep_view().all_catalogs();
        let mut catalogs = vec![self.crate_catalog];
        let mut i: usize = 0;
        assert(catalogs.deep_view() =~= all.take(1));
        while i < self.binary_dependencies.len()
            invariant
                all == self.deep_view().all_catalogs(),
                i <= self.binary_dependencies.len(),
                catalogs.deep_view() == all.take(i + 1),
            decreases self.binary_dependencies.len() - i,
        {
            let ghost before = catalogs.deep_view();
            catalogs.push(&self.binary_dependencies[i]);
            assert(catalogs.deep_view() =~= before.push(all[i + 1]));
            assert(all.take(i + 2) =~= before.push(all[i + 1]));
            i = i + 1;
        }
        assert(all.take(i + 1) =~= all);
        catalogs
    }

    /// Plans every crate, and gives the aliases. Nothing comes of it where too little is known of a
    /// crate that is looked at.
    #[verifier::spinoff_prover]
    fn gather_contexts(&self) -> (r: Option<
        Result<(Vec<CrateContext>, Vec<DependencyAlias>), RazeError>,
    >)
        ensures
            r is Some <==> self.deep_view().is_plannable(),
            r matches Some(planned) ==> outcome(planned) == self.deep_view().crate_contexts(),
            r matches Some(Ok((contexts, _))) ==> all_deps_in_order(contexts.deep_view()),
    {
        let ghost view = self.deep_view();
        let ghost all = view.all_catalogs();
        let package_to_checksum = match self.gather_checksums() {
            Ok(table) => table,
            Err(error) => {
                return Some(Err(error));
            },
        };
        let ghost checksums = package_to_checksum.deep_view();
        let mut contexts: Vec<CrateContext> = Vec::new();
        let mut root_ctx: Option<CrateContext> = None;
        let catalogs = self.list_catalogs();
        let mut n: usize = 0;
        proof {
            assert(contexts.deep_view() =~= Seq::empty());
            assert(all.take(0) =~= Seq::empty());
        }
        while n < catalogs.len()
            invariant
                view == self.deep_view(),
                all == view.all_catalogs(),
                all == catalogs.deep_view(),
                checksums == package_to_checksum.deep_view(),
                view.checksums() == Ok::<Checksums, RazeErrorView>(checksums),
                n <= catalogs.len(),
                all_deps_in_order(contexts.deep_view()),
                forall|k: int|
                    0 <= k < n ==> (view.with_catalogs(
                        checksums,
                        #[trigger] all.take(k),
                    ) matches Ok(known) ==> view.is_plannable_catalog(known, checksums, all[k])),
                view.with_catalogs(checksums, all.take(n as int)) == Ok::<
                    ContextsView,
                    RazeErrorView,
                >(
                    ContextsView { contexts: contexts.deep_view(), root: root_ctx.deep_view() },
                ),
            decreases catalogs.len() - n,
        {
            let catalog = catalogs[n];
            proof {
                assert(all[n as int] == catalog.deep_view());
            }
            let ghost known = ContextsView {
                contexts: contexts.deep_view(),
                root: root_ctx.deep_view(),
            };
            match self.add_catalog_contexts(
                &mut contexts,
                &mut root_ctx,
                &package_to_checksum,
                catalog,
            ) {
                Some(Ok(())) => {
                    proof {
                        lemma_with_one_more_catalog(view, checksums, all, n as int, known);
                    }
                },
                Some(Err(error)) => {
                    proof {
                        lemma_with_one_more_catalog(view, checksums, all, n as int, known);
                        lemma_with_catalogs_stops(view, checksums, all, n + 1);
                        lemma_catalogs_plannable_behind_error(view, checksums, all, n + 1);
                    }
                    return Some(Err(error));
                },
                None => {
                    proof {
                        lemma_not_plannable(view, checksums, all, n as int, known);
                    }
                    return None;
                },
            }
            n = n + 1;
        }
        assert(all.take(n as int) =~= all);
        let root = match root_ctx {
            Some(root) => root,
            None => {
                return Some(
                    Err(
                        RazeError::Internal(
                            "No root context found. ".to_owned().concat(PLEASE_FILE_A_BUG),
                        ),
                    ),
                );
            },
        };
        let aliases = self.produce_workspace_aliases(
            &root.default_deps.aliased_dependencies,
            &contexts,
        );
        Some(Ok((contexts, aliases)))
    }

    /// Whether enough is known to plan every crate, or to tell why one cannot be planned.
    pub fn is_plannable(&self) -> (r: bool)
        ensures
            r == self.deep_view().is_plannable(),
    {
        self.gather_contexts().is_some()
    }

    /// Plans every crate, and gives the aliases.
    pub fn produce_crate_contexts(&self) -> (r: Result<
        (Vec<CrateContext>, Vec<DependencyAlias>),
        RazeError,
    >)
        requires
            self.deep_view().is_plannable(),
        ensures
            outcome(r) == self.deep_view().crate_contexts(),
            r matches Ok((contexts, _)) ==> all_deps_in_order(contexts.deep_view()),
    {
        self.gather_contexts().unwrap()
    }

    /// Makes the checks that come before planning.
    pub fn check(&self) -> (r: Result<(), RazeError>)
        ensures
            outcome(r) == self.deep_view().checks(),
    {
        match check_resolve_matches_packages(self.crate_catalog.metadata()) {
            Ok(()) => {},
            Err(error) => {
                return Err(error);
            },
        }
        match self.settings.genmode {
            GenMode::Remote => self.check_binary_dependencies(),
            GenMode::Vendored => check_all_vendored(
                self.crate_catalog.entries(),
                &self.facts.vendored_crates,
                self.settings.workspace_path.as_str(),
            ),
            GenMode::Unspecified => Ok(()),
        }
    }

    /// The crates that settings are for and that no package is: such settings are of no use, and worth
    /// a warning. None where a check that comes before planning fails.
    pub fn unused_settings(&self) -> (r: Vec<String>)
        ensures
            r.deep_view() == self.deep_view().unused_settings(),
    {
        match self.check() {
            Ok(()) => {},
            Err(_) => {
                let none: Vec<String> = Vec::new();
                assert(none.deep_view() =~= Seq::empty());
                return none;
            },
        }
        let mut packages: Vec<&Package> = Vec::new();
        assert(packages.deep_view() =~= Seq::empty());
        if self.settings.genmode == GenMode::Remote {
            let catalogs = self.list_catalogs();
            let ghost all = catalogs.deep_view();
            let mut i: usize = 0;
            assert(all.take(0) =~= Seq::empty());
            while i < catalogs.len()
                invariant
                    all == catalogs.deep_view(),
                    i <= catalogs.len(),
                    packages.deep_view() == packages_of(all.take(i as int)),
                decreases catalogs.len() - i,
            {
                let catalog = catalogs[i];
                proof {
                    assert(all[i as int] == catalog.deep_view());
                    assert(all.take(i + 1).drop_last() =~= all.take(i as int));
                    assert(all.take(i + 1).last() == catalog.deep_view());
                }
                add_packages(&mut packages, &catalog.metadata().packages);
                i = i + 1;
            }
            assert(all.take(i as int) =~= all);
        } else {
            add_packages(&mut packages, &self.crate_catalog.metadata().packages);
            assert(packages.deep_view() =~= self.deep_view().catalog.packages);
        }
        unused_settings(self.settings.crates.items(), &packages)
    }

    /// Checks the workspace, and plans it.
    pub fn produce_planned_build(&self) -> (r: Result<PlannedBuild, RazeError>)
        requires
            self.deep_view().checks() is Ok ==> self.deep_view().is_plannable(),
        ensures
            outcome(r) == self.deep_view().planned_build(),
            r matches Ok(planned) ==> all_deps_in_order(planned.deep_view().crate_contexts),
    {
        match self.check() {
            Ok(()) => {},
            Err(error) => {
                return Err(error);
            },
        }
        let (crate_contexts, workspace_aliases) = match self.produce_crate_contexts() {
            Ok(produced) => produced,
            Err(error) => {
                return Err(error);
            },
        };
        Ok(
            PlannedBuild {
                workspace_context: self.produce_workspace_context(),
                crate_contexts,
                workspace_aliases,
                binary_crate_files: self.binary_deps_files.clone(),
            },
        )
    }

    /// Checks the dependency graphs of the crates that are wanted for their binaries.
    fn check_binary_dependencies(&self) -> (r: Result<(), RazeError>)
        ensures
            outcome(r) == resolve_checks(self.deep_view().binary_dependencies),
    {
        let ghost all = self.deep_view().binary_dependencies;
        let mut i: usize = 0;
        assert(all.take(0) =~= Seq::empty());
        while i < self.binary_dependencies.len()
            invariant
                all == self.binary_dependencies.deep_view(),
                all == self.deep_view().binary_dependencies,
                i <= self.binary_dependencies.len(),
                resolve_checks(all.take(i as int)) is Ok,
            decreases self.binary_dependencies.len() - i,
        {
            let catalog = &self.binary_dependencies[i];
            proof {
                assert(all[i as int] == catalog.deep_view());
                assert(all.take(i + 1).drop_last() =~= all.take(i as int));
                assert(all.take(i + 1).last() == catalog.deep_view());
                lemma_resolve_checks_stop(all, i + 1);
            }
            match check_resolve_matches_packages(catalog.metadata()) {
                Ok(()) => {},
                Err(error) => {
                    return Err(error);
                },
            }
            i = i + 1;
        }
        assert(all.take(i as int) =~= all);
        Ok(())
    }
}

proof fn lemma_resolve_checks_stop(catalogs: Seq<MetadataView>, n: int)
    requires
        0 <= n <= catalogs.len(),
    ensures
        resolve_checks(catalogs.take(n)) matches Err(error) ==> resolve_checks(catalogs) == Err::<
            (),
            RazeErrorView,
        >(error),
    decreases catalogs.len() - n,
{
    if n < catalogs.len() {
        assert(catalogs.take(n + 1).drop_last() =~= catalogs.take(n));
        lemma_resolve_checks_stop(catalogs, n + 1);
    } else {
        assert(catalogs.take(n) =~= catalogs);
    }
}

proof fn lemma_matching_settings_push(
    versions: Seq<VersionedCrateSettingsView>,
    version: Text,
    v: VersionedCrateSettingsView,
)
    ensures
        matching_settings(versions.push(v), version) == (if version_req_matches(v.req, version) {
            matching_settings(versions, version).push(v)
        } else {
            matching_settings(versions, version)
        }),
{
    reveal(Seq::filter);
    assert(versions.push(v).drop_last() =~= versions);
}

} // verus!
