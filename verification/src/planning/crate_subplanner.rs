//! Planning one crate.

use vstd::prelude::*;

use crate::context::{
    insert_alias, BuildableDependency, BuildableDependencyView, BuildableTarget,
    BuildableTargetView, CrateContext, CrateContextView, CrateDependencyContext,
    CrateDependencyContextView, CrateTargetedDepContext, CrateTargetedDepContextView,
    DependencyAlias, DependencyAliasView, GitRepo, GitRepoView, LicenseData, LicenseDataView,
    SourceDetails, SourceDetailsView,
};
use crate::error::{outcome, RazeError, RazeErrorView, PLEASE_FILE_A_BUG};
use crate::metadata::{
    DepKindInfo, DepKindInfoView, DependencyKind, DependencyView, MetadataView, Node, NodeDepView,
    NodeView, Package, PackageView, TargetView,
};
use crate::paths::{
    bazel_path, components, has_parent, is_absolute, stripped, written_text, FilePath, PathPartView,
    WrittenPath, WrittenPathView,
};
use crate::planning::crate_catalog::{
    catalog_entries, default_label_of, find_entry, has_package, ident_of, lemma_find_entry,
    local_build_path_of, package_ident, workspace_path_of, CrateCatalog, CrateCatalogEntry,
    CrateCatalogEntryView,
};
use crate::planning::facts::{WorkspaceFacts, WorkspaceFactsView};
use crate::platform::{
    get_matching_bazel_triples, is_bazel_supported_platform, matches_every_triple,
    matches_some_triple, matching_triples, platform_matches, platform_reads, Platform,
    PlatformDetails, PlatformDetailsView, WrittenPlatform,
};
use crate::settings::{
    format_registry_url, registry_url, CrateSettings, CrateSettingsView, GenMode, RazeSettings,
    RazeSettingsView,
};
use crate::sorting::{
    in_order, inserted, lemma_stable_sorted_keeps_items, sort_ranked, stable_sorted,
};
use crate::source::{SourceId, SourceIdView};
use crate::text::{
    contains_text, copy_optional_text, copy_texts, ends_with, same_optional_text, same_text,
    sanitize_ident, sanitized, Text,
};
use crate::version::version_req_matches;

verus! {

/// Plans one crate.
pub struct CrateSubplanner<'planner> {
    pub settings: &'planner RazeSettings,
    pub platform_details: &'planner Option<PlatformDetails>,
    pub facts: &'planner WorkspaceFacts,
    pub crate_catalog: &'planner CrateCatalog<'planner>,
    /// The entry of the crate.
    pub crate_catalog_entry: &'planner CrateCatalogEntry<'planner>,
    /// Where the sources of the crate come from.
    pub source_id: &'planner Option<SourceId>,
    /// The node of the crate in the dependency graph.
    pub node: &'planner Node,
    /// The settings for the crate.
    pub crate_settings: Option<&'planner CrateSettings>,
    /// The checksum of the crate.
    pub sha256: &'planner Option<String>,
}

/// What a [`CrateSubplanner`] holds.
#[verifier::ext_equal]
pub struct CrateSubplannerView {
    pub settings: RazeSettingsView,
    pub platform_details: Option<PlatformDetailsView>,
    pub facts: WorkspaceFactsView,
    pub catalog: MetadataView,
    pub entry: CrateCatalogEntryView,
    pub source_id: Option<SourceIdView>,
    pub node: NodeView,
    pub crate_settings: Option<CrateSettingsView>,
    pub sha256: Option<Text>,
}

impl<'planner> DeepView for CrateSubplanner<'planner> {
    type V = CrateSubplannerView;

    open spec fn deep_view(&self) -> CrateSubplannerView {
        CrateSubplannerView {
            settings: self.settings.deep_view(),
            platform_details: self.platform_details.deep_view(),
            facts: self.facts.deep_view(),
            catalog: self.crate_catalog.deep_view(),
            entry: self.crate_catalog_entry.deep_view(),
            source_id: self.source_id.deep_view(),
            node: self.node.deep_view(),
            crate_settings: self.crate_settings.deep_view(),
            sha256: self.sha256.deep_view(),
        }
    }
}

/// The dependencies for one platform, or those for all.
#[derive(Debug, PartialEq, Eq)]
pub struct PlatformDeps {
    /// The platform; nothing stands for all.
    pub target: Option<Platform>,
    pub deps: CrateDependencyContext,
}

/// What a [`PlatformDeps`] holds.
#[verifier::ext_equal]
pub struct PlatformDepsView {
    pub target: Option<Text>,
    pub deps: CrateDependencyContextView,
}

impl DeepView for PlatformDeps {
    type V = PlatformDepsView;

    open spec fn deep_view(&self) -> PlatformDepsView {
        PlatformDepsView { target: self.target.deep_view(), deps: self.deps.deep_view() }
    }
}

/// Whether a package is a procedural macro: one of its targets is.
pub open spec fn is_proc_macro_package(package: PackageView) -> bool {
    exists|i: int|
        0 <= i < package.targets.len() && (#[trigger] package.targets[i]).crate_types.contains(
            "proc-macro"@,
        )
}

/// The URL of the source of a package.
pub open spec fn source_text(package: PackageView) -> Option<Text> {
    match package.source {
        Some(source) => Some(source.repr),
        None => None,
    }
}

/// Whether a declared dependency is one on `dep` under another name.
pub open spec fn renames(declared: DependencyView, dep: PackageView) -> bool {
    &&& declared.name == dep.name
    &&& version_req_matches(declared.req, dep.version)
    &&& declared.source == source_text(dep)
    &&& declared.rename is Some
}

/// Whether a package depends on `dep` under another name.
pub open spec fn is_renamed_by(package: PackageView, dep: PackageView) -> bool {
    exists|i: int|
        0 <= i < package.dependencies.len() && renames(#[trigger] package.dependencies[i], dep)
}

/// The lists with a dependency added to the one that it belongs to. A crate that binds a system
/// library is also visible to the build script. Nothing if it belongs to none.
pub open spec fn with_dependency(
    set: CrateDependencyContextView,
    kind: DependencyKind,
    dep: BuildableDependencyView,
) -> Option<CrateDependencyContextView> {
    match kind {
        DependencyKind::Build => if dep.is_proc_macro {
            Some(
                CrateDependencyContextView {
                    build_proc_macro_dependencies: set.build_proc_macro_dependencies.push(dep),
                    ..set
                },
            )
        } else {
            Some(
                CrateDependencyContextView {
                    build_dependencies: set.build_dependencies.push(dep),
                    ..set
                },
            )
        },
        DependencyKind::Development => Some(
            CrateDependencyContextView { dev_dependencies: set.dev_dependencies.push(dep), ..set },
        ),
        DependencyKind::Normal => if dep.is_proc_macro {
            Some(
                CrateDependencyContextView {
                    proc_macro_dependencies: set.proc_macro_dependencies.push(dep),
                    ..set
                },
            )
        } else if "-sys"@.is_suffix_of(dep.name) {
            Some(
                CrateDependencyContextView {
                    build_dependencies: set.build_dependencies.push(dep),
                    dependencies: set.dependencies.push(dep),
                    ..set
                },
            )
        } else {
            Some(CrateDependencyContextView { dependencies: set.dependencies.push(dep), ..set })
        },
        DependencyKind::Unknown => None,
    }
}

/// The error for a dependency of which nobody knows what it is needed for.
pub open spec fn unhandlable_dependency(name: Text) -> RazeErrorView {
    RazeErrorView::Planning {
        dependency_name_opt: Some(name),
        message: "Unhandlable dependency type Unknown on "@ + name + " detected! "@
            + PLEASE_FILE_A_BUG@,
    }
}

/// The error for two dependencies on a package under one name.
pub open spec fn duplicated_rename(package_name: Text, name: Text) -> RazeErrorView {
    RazeErrorView::Planning {
        dependency_name_opt: Some(package_name),
        message: "Duplicated renamed package "@ + name,
    }
}

/// The dependencies for a platform among `sets`; none if the platform is not there.
pub open spec fn set_for(sets: Seq<PlatformDepsView>, target: Option<Text>) -> CrateDependencyContextView
    decreases sets.len(),
{
    if sets.len() == 0 {
        CrateDependencyContext::nothing()
    } else if sets[0].target == target {
        sets[0].deps
    } else {
        set_for(sets.drop_first(), target)
    }
}

/// `sets` with other dependencies for a platform. A platform that was not there comes last.
pub open spec fn with_set(
    sets: Seq<PlatformDepsView>,
    target: Option<Text>,
    deps: CrateDependencyContextView,
) -> Seq<PlatformDepsView>
    decreases sets.len(),
{
    if sets.len() == 0 {
        seq![PlatformDepsView { target, deps }]
    } else if sets[0].target == target {
        sets.update(0, PlatformDepsView { target, deps })
    } else {
        seq![sets[0]] + with_set(sets.drop_first(), target, deps)
    }
}

/// Whether each of the lists of dependencies is in order: by label, then name, then version.
pub open spec fn lists_in_order(set: CrateDependencyContextView) -> bool {
    &&& in_order::<BuildableDependency>(set.dependencies)
    &&& in_order::<BuildableDependency>(set.proc_macro_dependencies)
    &&& in_order::<BuildableDependency>(set.build_dependencies)
    &&& in_order::<BuildableDependency>(set.build_proc_macro_dependencies)
    &&& in_order::<BuildableDependency>(set.dev_dependencies)
}

/// Whether the lists of all of these are in order.
pub open spec fn sets_in_order(sets: Seq<PlatformDepsView>) -> bool {
    forall|i: int| 0 <= i < sets.len() ==> lists_in_order((#[trigger] sets[i]).deps)
}

/// Whether the lists of all of these are in order.
pub open spec fn targeted_in_order(targeted: Seq<CrateTargetedDepContextView>) -> bool {
    forall|i: int| 0 <= i < targeted.len() ==> lists_in_order((#[trigger] targeted[i]).deps)
}

/// Whether all lists of dependencies in a context are in order.
pub open spec fn deps_in_order(context: CrateContextView) -> bool {
    lists_in_order(context.default_deps) && targeted_in_order(context.targeted_deps)
}

/// The dependencies with each of the lists in order.
pub open spec fn with_sorted_lists(set: CrateDependencyContextView) -> CrateDependencyContextView {
    CrateDependencyContextView {
        dependencies: stable_sorted::<BuildableDependency>(set.dependencies),
        proc_macro_dependencies: stable_sorted::<BuildableDependency>(set.proc_macro_dependencies),
        build_dependencies: stable_sorted::<BuildableDependency>(set.build_dependencies),
        build_proc_macro_dependencies: stable_sorted::<BuildableDependency>(
            set.build_proc_macro_dependencies,
        ),
        dev_dependencies: stable_sorted::<BuildableDependency>(set.dev_dependencies),
        aliased_dependencies: set.aliased_dependencies,
    }
}

impl CrateSubplannerView {
    /// The package of the crate.
    pub open spec fn package(self) -> PackageView {
        self.entry.package
    }

    /// The package with this id.
    pub open spec fn package_with_id(self, id: Text) -> PackageView {
        find_entry(catalog_entries(self.catalog), id)->Some_0.package
    }

    /// The label of a package that the crate depends on.
    pub open spec fn dep_label(self, dep: PackageView) -> Result<Text, RazeErrorView> {
        default_label_of(self.settings, self.package_with_id(dep.id))
    }

    /// The dependencies for a platform after one more was looked at, and whether it was accepted.
    pub open spec fn processed(
        self,
        set: CrateDependencyContextView,
        name: Text,
        kind: DependencyKind,
        dep: PackageView,
    ) -> (CrateDependencyContextView, Result<(), RazeErrorView>) {
        match self.dep_label(dep) {
            Err(error) => (set, Err(error)),
            Ok(label) => {
                let build_dep = BuildableDependencyView {
                    buildable_target: label,
                    name: dep.name,
                    version: dep.version,
                    is_proc_macro: is_proc_macro_package(dep),
                };
                let alias = DependencyAliasView { target: label, alias: sanitized(name) };
                match with_dependency(set, kind, build_dep) {
                    None => (set, Err(unhandlable_dependency(dep.name))),
                    Some(listed) => if !is_renamed_by(self.package(), dep) {
                        (listed, Ok(()))
                    } else if listed.aliased_dependencies.contains(alias) {
                        (listed, Err(duplicated_rename(dep.name, name)))
                    } else {
                        (
                            CrateDependencyContextView {
                                aliased_dependencies: inserted::<DependencyAlias>(
                                    listed.aliased_dependencies,
                                    alias,
                                ),
                                ..listed
                            },
                            Ok(()),
                        )
                    },
                }
            },
        }
    }

    /// Whether the build is for one target, whose details are known.
    pub open spec fn is_for_one_target(self) -> bool {
        self.platform_details is Some && self.settings.target is Some
    }

    /// Whether a dependency for this platform is wanted. With the details of one target, the
    /// platform must match it; else one of the supported targets, or all of them. A platform that
    /// cannot be read matches none of them.
    pub open spec fn is_targetted(self, target: Option<Text>) -> bool {
        match target {
            None => true,
            Some(repr) => match (self.platform_details, self.settings.target) {
                (Some(details), Some(triple)) => platform_matches(repr, triple, details.attrs),
                _ => platform_reads(repr) && (matches_some_triple(repr, self.facts.bazel_triples)
                    || matches_every_triple(repr, self.facts.bazel_triples)),
            },
        }
    }

    /// Whether the settings leave a package out.
    pub open spec fn is_skipped(self, dep: PackageView) -> bool {
        self.crate_settings matches Some(settings) && settings.skipped_deps.contains(
            package_ident(dep),
        )
    }

    /// `sets` with one dependency added for each platform and use that it is wanted for.
    pub open spec fn with_kinds(
        self,
        sets: Seq<PlatformDepsView>,
        name: Text,
        dep: PackageView,
        kinds: Seq<DepKindInfoView>,
    ) -> Result<Seq<PlatformDepsView>, RazeErrorView>
        decreases kinds.len(),
    {
        if kinds.len() == 0 {
            Ok(sets)
        } else {
            match self.with_kinds(sets, name, dep, kinds.drop_last()) {
                Err(error) => Err(error),
                Ok(before) => if !self.is_targetted(kinds.last().target) {
                    Ok(before)
                } else {
                    let (set, accepted) = self.processed(
                        set_for(before, kinds.last().target),
                        name,
                        kinds.last().kind,
                        dep,
                    );
                    match accepted {
                        Err(error) => Err(error),
                        Ok(()) => Ok(with_set(before, kinds.last().target, set)),
                    }
                },
            }
        }
    }

    /// The dependencies of the crate by platform, in the order in which they are declared.
    pub open spec fn declared_deps(self, deps: Seq<NodeDepView>) -> Result<
        Seq<PlatformDepsView>,
        RazeErrorView,
    >
        decreases deps.len(),
    {
        if deps.len() == 0 {
            Ok(Seq::empty())
        } else {
            match self.declared_deps(deps.drop_last()) {
                Err(error) => Err(error),
                Ok(before) => {
                    let dep = self.package_with_id(deps.last().pkg);
                    if self.is_skipped(dep) {
                        Ok(before)
                    } else {
                        self.with_kinds(before, deps.last().name, dep, deps.last().dep_kinds)
                    }
                },
            }
        }
    }

    /// Whether the platform of each use of a dependency that is looked at can be read, where the build
    /// is for one target. Nothing is looked at behind what is not accepted.
    pub open spec fn kinds_are_clear(
        self,
        sets: Seq<PlatformDepsView>,
        name: Text,
        dep: PackageView,
        kinds: Seq<DepKindInfoView>,
    ) -> bool {
        self.is_for_one_target() ==> forall|i: int|
            0 <= i < kinds.len() && self.with_kinds(sets, name, dep, #[trigger] kinds.take(i)) is Ok
                ==> kinds[i].target_reads
    }

    /// Whether Cargo told of the package of a dependency, and its platforms can be read, unless the
    /// settings leave it out.
    pub open spec fn dep_is_clear(self, before: Seq<PlatformDepsView>, dep: NodeDepView) -> bool {
        let package = self.package_with_id(dep.pkg);
        &&& has_package(self.catalog.packages, dep.pkg)
        &&& !self.is_skipped(package) ==> self.kinds_are_clear(
            before,
            dep.name,
            package,
            dep.dep_kinds,
        )
    }

    /// Whether this holds of each dependency that is looked at. Nothing is looked at behind what is
    /// not accepted.
    pub open spec fn deps_are_clear(self, deps: Seq<NodeDepView>) -> bool {
        forall|i: int|
            0 <= i < deps.len() ==> (self.declared_deps(#[trigger] deps.take(i)) matches Ok(before)
                ==> self.dep_is_clear(before, deps[i]))
    }

    /// The dependencies of the crate by platform, each list in order.
    pub open spec fn deps(self) -> Result<Seq<PlatformDepsView>, RazeErrorView> {
        match self.declared_deps(self.node.deps) {
            Err(error) => Err(error),
            Ok(sets) => Ok(with_sorted_sets(sets)),
        }
    }
}

/// A path below the root of its package, or the whole path where it is not below it.
pub open spec fn below_root(path: Seq<PathPartView>, root: Seq<PathPartView>) -> Seq<PathPartView> {
    match stripped(path, root) {
        Some(rest) => rest,
        None => path,
    }
}

/// The error for a path that Bazel cannot name because it is not text.
pub open spec fn not_utf8(path: WrittenPathView) -> RazeErrorView {
    RazeErrorView::InvalidData(
        path.printed + " contains non UTF-8 characters and is not a legal path in Bazel"@,
    )
}

/// What Bazel builds of a target: one target of each of its kinds.
pub open spec fn targets_of_kinds(target: TargetView, path: Text) -> Seq<BuildableTargetView> {
    target.kind.map_values(
        |kind: Text|
            BuildableTargetView { kind, name: target.name, path, edition: target.edition },
    )
}

/// What Bazel builds of some targets, in the order in which they are declared.
pub open spec fn declared_targets(
    targets: Seq<TargetView>,
    root: Seq<PathPartView>,
) -> Result<Seq<BuildableTargetView>, RazeErrorView>
    decreases targets.len(),
{
    if targets.len() == 0 {
        Ok(Seq::empty())
    } else {
        match declared_targets(targets.drop_last(), root) {
            Err(error) => Err(error),
            Ok(before) => match bazel_path(below_root(components(targets.last().src_path), root)) {
                None => Err(not_utf8(targets.last().src_path)),
                Some(path) => Ok(before + targets_of_kinds(targets.last(), path)),
            },
        }
    }
}

/// Where the first target of this kind stands; behind the last target if there is none.
pub open spec fn first_of_kind(targets: Seq<BuildableTargetView>, kind: Text) -> int
    decreases targets.len(),
{
    if targets.len() == 0 || targets[0].kind == kind {
        0
    } else {
        1 + first_of_kind(targets.drop_first(), kind)
    }
}

/// The name of the first target that is a library or a procedural macro.
pub open spec fn library_name(targets: Seq<BuildableTargetView>) -> Option<Text>
    decreases targets.len(),
{
    if targets.len() == 0 {
        None
    } else if targets[0].kind == "lib"@ || targets[0].kind == "proc-macro"@ {
        Some(targets[0].name)
    } else {
        library_name(targets.drop_first())
    }
}

/// The innermost of the directories around a path that is one of `roots`.
pub open spec fn nearest_root(
    roots: Seq<Seq<PathPartView>>,
    path: Seq<PathPartView>,
) -> Option<Seq<PathPartView>>
    decreases path.len(),
{
    if !has_parent(path) {
        None
    } else if roots.contains(path.drop_last()) {
        Some(path.drop_last())
    } else {
        nearest_root(roots, path.drop_last())
    }
}

/// The error where no directory around a manifest is a Git repository.
pub open spec fn missing_git_root(manifest: WrittenPathView) -> RazeErrorView {
    RazeErrorView::Generic(
        "Unable to locate git repository root for manifest at "@ + manifest.printed + ". "@
            + PLEASE_FILE_A_BUG@,
    )
}

impl CrateSubplannerView {
    /// Whether the sources are those of a Git repository which Bazel fetches.
    pub open spec fn has_git_repo_root(self) -> bool {
        self.source_id matches Some(id) && id.git && self.settings.genmode == GenMode::Remote
    }

    /// The root of the package with this manifest: that of the Git repository which Bazel fetches,
    /// else the directory of the manifest.
    pub open spec fn package_root(self, manifest: WrittenPathView) -> Result<
        Seq<PathPartView>,
        RazeErrorView,
    > {
        if !self.has_git_repo_root() {
            Ok(components(manifest).drop_last())
        } else {
            match nearest_root(self.facts.git_roots, components(manifest)) {
                Some(root) => Ok(root),
                None => Err(missing_git_root(manifest)),
            }
        }
    }

    /// What Bazel builds of the package.
    pub open spec fn targets(self, root: Seq<PathPartView>) -> Result<
        Seq<BuildableTargetView>,
        RazeErrorView,
    > {
        match declared_targets(self.package().targets, root) {
            Err(error) => Err(error),
            Ok(targets) => Ok(stable_sorted::<BuildableTarget>(targets)),
        }
    }

    /// Whether the build script is built.
    pub open spec fn gen_buildrs(self) -> bool {
        match self.crate_settings {
            Some(settings) => match settings.gen_buildrs {
                Some(wanted) => wanted,
                None => self.settings.default_gen_buildrs,
            },
            None => self.settings.default_gen_buildrs,
        }
    }

    /// The build script among `targets`, if it is built.
    pub open spec fn build_script(self, targets: Seq<BuildableTargetView>) -> Option<
        BuildableTargetView,
    > {
        let at = first_of_kind(targets, "custom-build"@);
        if self.gen_buildrs() && at < targets.len() {
            Some(targets[at])
        } else {
            None
        }
    }

    /// `targets` without the build script, if it is built.
    pub open spec fn without_build_script(self, targets: Seq<BuildableTargetView>) -> Seq<
        BuildableTargetView,
    > {
        let at = first_of_kind(targets, "custom-build"@);
        if self.gen_buildrs() && at < targets.len() {
            targets.remove(at)
        } else {
            targets
        }
    }

    /// Where the sources are: for those of a Git repository, its URL and revision, and the path from
    /// the root of the package to the directory of the manifest, as it is written.
    pub open spec fn source_details(
        self,
        manifest: WrittenPathView,
        root: Seq<PathPartView>,
    ) -> SourceDetailsView {
        let rest = manifest.parts.drop_last().skip(root.len() as int);
        SourceDetailsView {
            git_data: match self.source_id {
                Some(id) => if id.git {
                    Some(
                        GitRepoView {
                            remote: id.url,
                            commit: id.precise->Some_0,
                            path_to_crate_root: if rest.len() == 0 {
                                None
                            } else {
                                Some(written_text(rest))
                            },
                        },
                    )
                } else {
                    None
                },
                None => None,
            },
        }
    }

    /// The license, as the manifest states it.
    pub open spec fn license(self) -> LicenseDataView {
        LicenseDataView {
            license: match self.package().license {
                Some(license) => license,
                None => Seq::empty(),
            },
        }
    }

    /// The dependencies for a platform with the targets that the platform matches.
    pub open spec fn targeted_set(self, set: PlatformDepsView) -> CrateTargetedDepContextView {
        CrateTargetedDepContextView {
            target: set.target->Some_0,
            deps: set.deps,
            platform_targets: matching_triples(
                set.target->Some_0,
                self.facts.bazel_triples,
                self.settings.targets,
            ),
        }
    }

    /// The dependencies for single platforms, as far as the platform matches a target.
    pub open spec fn targeted_sets(self, sets: Seq<PlatformDepsView>) -> Seq<
        CrateTargetedDepContextView,
    >
        decreases sets.len(),
    {
        if sets.len() == 0 {
            Seq::empty()
        } else {
            let before = self.targeted_sets(sets.drop_last());
            if sets.last().target is Some && self.targeted_set(
                sets.last(),
            ).platform_targets.len() > 0 {
                before.push(self.targeted_set(sets.last()))
            } else {
                before
            }
        }
    }

    /// The context of the crate, from what can fail.
    pub open spec fn context_from(
        self,
        root: Seq<PathPartView>,
        targets: Seq<BuildableTargetView>,
        sets: Seq<PlatformDepsView>,
        workspace_path: Text,
        build_path: Text,
    ) -> CrateContextView {
        CrateContextView {
            pkg_name: self.package().name,
            pkg_version: self.package().version,
            edition: self.package().edition,
            raze_settings: match self.crate_settings {
                Some(settings) => settings,
                None => CrateSettings::nothing_set(),
            },
            license: self.license(),
            features: self.node.features,
            workspace_path_to_crate: workspace_path,
            default_deps: set_for(sets, None),
            targeted_deps: stable_sorted::<CrateTargetedDepContext>(self.targeted_sets(sets)),
            is_root_dependency: self.entry.is_root_dep,
            targets: self.without_build_script(targets),
            build_script_target: self.build_script(targets),
            source_details: self.source_details(self.package().manifest_path, root),
            sha256: self.sha256,
            registry_url: registry_url(
                self.settings.registry,
                self.package().name,
                self.package().version,
            ),
            expected_build_path: build_path,
            lib_target_name: library_name(self.without_build_script(targets)),
        }
    }

    /// Whether enough is known of the crate to plan it, or to tell why it cannot be planned. The path
    /// of the manifest is absolute and, unless it is looked for in a Git repository, that of something
    /// in a directory; the dependencies are clear, if it comes to them; and a Git source is locked to
    /// a revision, if it comes to that.
    pub open spec fn is_complete(self) -> bool {
        let manifest = self.package().manifest_path;
        &&& is_absolute(components(manifest))
        &&& !self.has_git_repo_root() ==> has_parent(components(manifest))
        &&& self.package_root(manifest) matches Ok(root) ==> (self.targets(root) is Ok ==> {
            &&& self.deps_are_clear(self.node.deps)
            &&& self.deps() is Ok && self.settings.genmode != GenMode::Unspecified ==> (
            self.source_id matches Some(id) ==> (id.git ==> id.precise is Some))
        })
    }

    /// The context of the crate.
    pub open spec fn context(self) -> Result<CrateContextView, RazeErrorView> {
        match self.package_root(self.package().manifest_path) {
            Err(error) => Err(error),
            Ok(root) => match self.targets(root) {
                Err(error) => Err(error),
                Ok(targets) => match self.deps() {
                    Err(error) => Err(error),
                    Ok(sets) => match workspace_path_of(self.settings, self.package()) {
                        Err(error) => Err(error),
                        Ok(workspace_path) => match local_build_path_of(
                            self.settings,
                            self.package(),
                        ) {
                            Err(error) => Err(error),
                            Ok(build_path) => Ok(
                                self.context_from(
                                    root,
                                    targets,
                                    sets,
                                    workspace_path,
                                    build_path,
                                ),
                            ),
                        },
                    },
                },
            },
        }
    }
}

impl<'planner> CrateSubplanner<'planner> {
    /// Whether a package is a procedural macro.
    ///
    /// A dependency is one on the library of a package. A package has at most one library, and only
    /// the library can be a procedural macro, so all targets are looked at.
    pub fn is_proc_macro(&self, dep_package: &Package) -> (r: bool)
        ensures
            r == is_proc_macro_package(dep_package.deep_view()),
    {
        let ghost targets = dep_package.deep_view().targets;
        let mut i: usize = 0;
        while i < dep_package.targets.len()
            invariant
                targets == dep_package.deep_view().targets,
                i <= dep_package.targets.len(),
                forall|j: int|
                    0 <= j < i ==> !(#[trigger] targets[j]).crate_types.contains("proc-macro"@),
            decreases dep_package.targets.len() - i,
        {
            assert(targets[i as int] == dep_package.targets@[i as int].deep_view());
            if contains_text(&dep_package.targets[i].crate_types, "proc-macro") {
                return true;
            }
            i = i + 1;
        }
        false
    }

    /// Whether the crate depends on a package under another name.
    pub fn is_renamed(&self, dep_package: &Package) -> (r: bool)
        ensures
            r == is_renamed_by(self.deep_view().package(), dep_package.deep_view()),
    {
        let package = self.crate_catalog_entry.package();
        let dep_source = match &dep_package.source {
            Some(source) => Some(source.to_text()),
            None => None,
        };
        let ghost declared = package.deep_view().dependencies;
        let ghost dep = dep_package.deep_view();
        let mut i: usize = 0;
        while i < package.dependencies.len()
            invariant
                declared == package.deep_view().dependencies,
                package.deep_view() == self.deep_view().package(),
                dep == dep_package.deep_view(),
                dep_source.deep_view() == source_text(dep),
                i <= package.dependencies.len(),
                forall|j: int| 0 <= j < i ==> !renames(#[trigger] declared[j], dep),
            decreases package.dependencies.len() - i,
        {
            let d = &package.dependencies[i];
            assert(declared[i as int] == d.deep_view());
            if same_text(d.name.as_str(), dep_package.name.as_str()) && d.req.matches(
                &dep_package.version,
            ) && same_optional_text(&d.source, &dep_source) && d.rename.is_some() {
                assert(renames(declared[i as int], dep));
                return true;
            }
            assert(!renames(declared[i as int], dep));
            i = i + 1;
        }
        false
    }

    /// The label of a package that the crate depends on.
    pub fn buildable_target_for_dep(&self, dep_package: &Package) -> (r: Result<String, RazeError>)
        requires
            has_package(self.deep_view().catalog.packages, dep_package.deep_view().id),
        ensures
            outcome(r) == self.deep_view().dep_label(dep_package.deep_view()),
    {
        proof {
            lemma_find_entry(self.deep_view().catalog, dep_package.deep_view().id);
        }
        let entry = self.crate_catalog.entry_for_package_id(dep_package.id.as_str()).unwrap();
        entry.workspace_path_and_default_target(self.settings)
    }

    /// Adds a dependency to those for a platform.
    pub fn process_dep(
        &self,
        dep_set: &mut CrateDependencyContext,
        name: &str,
        dep: &DepKindInfo,
        pkg: &Package,
    ) -> (r: Result<(), RazeError>)
        requires
            has_package(self.deep_view().catalog.packages, pkg.deep_view().id),
        ensures
            (final(dep_set).deep_view(), outcome(r)) == self.deep_view().processed(
                old(dep_set).deep_view(),
                name@,
                dep.deep_view().kind,
                pkg.deep_view(),
            ),
    {
        let ghost before = dep_set.deep_view();
        let is_proc_macro = self.is_proc_macro(pkg);
        let is_sys_crate = ends_with(pkg.name.as_str(), "-sys");
        let buildable_target = match self.buildable_target_for_dep(pkg) {
            Ok(label) => label,
            Err(error) => {
                return Err(error);
            },
        };
        let build_dep = BuildableDependency {
            buildable_target: buildable_target.clone(),
            name: pkg.name.clone(),
            version: pkg.version.clone(),
            is_proc_macro,
        };
        let ghost bd = build_dep.deep_view();
        match dep.kind {
            DependencyKind::Build => {
                if is_proc_macro {
                    dep_set.build_proc_macro_dependencies.push(build_dep);
                    assert(dep_set.build_proc_macro_dependencies.deep_view()
                        =~= before.build_proc_macro_dependencies.push(bd));
                } else {
                    dep_set.build_dependencies.push(build_dep);
                    assert(dep_set.build_dependencies.deep_view()
                        =~= before.build_dependencies.push(bd));
                }
            },
            DependencyKind::Development => {
                dep_set.dev_dependencies.push(build_dep);
                assert(dep_set.dev_dependencies.deep_view() =~= before.dev_dependencies.push(bd));
            },
            DependencyKind::Normal => {
                if is_proc_macro {
                    dep_set.proc_macro_dependencies.push(build_dep);
                    assert(dep_set.proc_macro_dependencies.deep_view()
                        =~= before.proc_macro_dependencies.push(bd));
                } else {
                    // What the build script of a system library's crate says must be visible to the
                    // build scripts of the crates that depend on it.
                    if is_sys_crate {
                        dep_set.build_dependencies.push(build_dep.clone());
                        assert(dep_set.build_dependencies.deep_view()
                            =~= before.build_dependencies.push(bd));
                    }
                    dep_set.dependencies.push(build_dep);
                    assert(dep_set.dependencies.deep_view() =~= before.dependencies.push(bd));
                }
            },
            DependencyKind::Unknown => {
                return Err(
                    RazeError::Planning {
                        dependency_name_opt: Some(pkg.name.clone()),
                        message: "Unhandlable dependency type Unknown on ".to_owned().concat(
                            pkg.name.as_str(),
                        ).concat(" detected! ").concat(PLEASE_FILE_A_BUG),
                    },
                );
            },
        }
        assert(with_dependency(before, dep.kind, bd) == Some(dep_set.deep_view()));
        if self.is_renamed(pkg) {
            let alias = DependencyAlias { target: buildable_target, alias: sanitize_ident(name) };
            if !insert_alias(&mut dep_set.aliased_dependencies, alias) {
                return Err(
                    RazeError::Planning {
                        dependency_name_opt: Some(pkg.name.clone()),
                        message: "Duplicated renamed package ".to_owned().concat(name),
                    },
                );
            }
        }
        Ok(())
    }
}

/// Whether two optional platforms are the same.
fn same_target(a: &Option<Platform>, b: &Option<Platform>) -> (r: bool)
    ensures
        r == (a.deep_view() == b.deep_view()),
{
    match (a, b) {
        (Some(x), Some(y)) => x.same(y),
        (None, None) => true,
        _ => false,
    }
}

proof fn lemma_set_at(
    sets: Seq<PlatformDepsView>,
    target: Option<Text>,
    i: int,
    deps: CrateDependencyContextView,
)
    requires
        0 <= i < sets.len(),
        sets[i].target == target,
        forall|j: int| 0 <= j < i ==> (#[trigger] sets[j]).target != target,
    ensures
        set_for(sets, target) == sets[i].deps,
        with_set(sets, target, deps) == sets.update(i, PlatformDepsView { target, deps }),
    decreases sets.len(),
{
    if i > 0 {
        let rest = sets.drop_first();
        assert forall|j: int| 0 <= j < i - 1 implies (#[trigger] rest[j]).target != target by {
            assert(rest[j] == sets[j + 1]);
        }
        assert(sets[0].target != target);
        lemma_set_at(rest, target, i - 1, deps);
        assert(with_set(sets, target, deps) =~= sets.update(i, PlatformDepsView { target, deps }));
    }
}

proof fn lemma_no_set(
    sets: Seq<PlatformDepsView>,
    target: Option<Text>,
    deps: CrateDependencyContextView,
)
    requires
        forall|j: int| 0 <= j < sets.len() ==> (#[trigger] sets[j]).target != target,
    ensures
        set_for(sets, target) == CrateDependencyContext::nothing(),
        with_set(sets, target, deps) == sets.push(PlatformDepsView { target, deps }),
    decreases sets.len(),
{
    if sets.len() > 0 {
        let rest = sets.drop_first();
        assert forall|j: int| 0 <= j < rest.len() implies (#[trigger] rest[j]).target != target by {
            assert(rest[j] == sets[j + 1]);
        }
        assert(sets[0].target != target);
        lemma_no_set(rest, target, deps);
    }
    assert(with_set(sets, target, deps) =~= sets.push(PlatformDepsView { target, deps }));
}

/// Where the dependencies for a platform stand.
fn find_set(sets: &Vec<PlatformDeps>, target: &Option<Platform>) -> (r: Option<usize>)
    ensures
        match r {
            Some(i) => i < sets.len() && sets.deep_view()[i as int].target == target.deep_view()
                && forall|j: int|
                0 <= j < i ==> (#[trigger] sets.deep_view()[j]).target != target.deep_view(),
            None => forall|j: int|
                0 <= j < sets.len() ==> (#[trigger] sets.deep_view()[j]).target
                    != target.deep_view(),
        },
{
    let mut i: usize = 0;
    while i < sets.len()
        invariant
            i <= sets.len(),
            forall|j: int|
                0 <= j < i ==> (#[trigger] sets.deep_view()[j]).target != target.deep_view(),
        decreases sets.len() - i,
    {
        assert(sets.deep_view()[i as int] == sets@[i as int].deep_view());
        if same_target(&sets[i].target, target) {
            return Some(i);
        }
        i = i + 1;
    }
    None
}

/// The place of the dependencies for a platform, which is made where there was none.
fn set_index(sets: &mut Vec<PlatformDeps>, target: &Option<Platform>) -> (r: usize)
    ensures
        r < final(sets).len(),
        final(sets).deep_view()[r as int] == (PlatformDepsView {
            target: target.deep_view(),
            deps: set_for(old(sets).deep_view(), target.deep_view()),
        }),
        forall|deps: CrateDependencyContextView|
            with_set(old(sets).deep_view(), target.deep_view(), deps)
                == #[trigger] final(sets).deep_view().update(
                r as int,
                PlatformDepsView { target: target.deep_view(), deps },
            ),
{
    let ghost before = sets.deep_view();
    let ghost t = target.deep_view();
    match find_set(sets, target) {
        Some(i) => {
            assert forall|deps: CrateDependencyContextView|
                with_set(before, t, deps) == #[trigger] before.update(
                    i as int,
                    PlatformDepsView { target: t, deps },
                ) by {
                lemma_set_at(before, t, i as int, deps);
            }
            proof {
                lemma_set_at(before, t, i as int, before[i as int].deps);
            }
            i
        },
        None => {
            let i: usize = sets.len();
            sets.push(
                PlatformDeps {
                    target: match target {
                        Some(platform) => Some(platform.clone()),
                        None => None,
                    },
                    deps: CrateDependencyContext::default(),
                },
            );
            let ghost made = PlatformDepsView {
                target: t,
                deps: CrateDependencyContext::nothing(),
            };
            assert(sets.deep_view() =~= before.push(made));
            assert forall|deps: CrateDependencyContextView|
                with_set(before, t, deps) == #[trigger] before.push(made).update(
                    i as int,
                    PlatformDepsView { target: t, deps },
                ) by {
                lemma_no_set(before, t, deps);
                assert(before.push(PlatformDepsView { target: t, deps }) =~= before.push(
                    made,
                ).update(i as int, PlatformDepsView { target: t, deps }));
            }
            proof {
                lemma_no_set(before, t, made.deps);
            }
            i
        },
    }
}

/// Puts each list of the dependencies in order.
fn sort_lists(set: CrateDependencyContext) -> (r: CrateDependencyContext)
    ensures
        r.deep_view() == with_sorted_lists(set.deep_view()),
        lists_in_order(r.deep_view()),
{
    CrateDependencyContext {
        dependencies: sort_ranked(set.dependencies),
        proc_macro_dependencies: sort_ranked(set.proc_macro_dependencies),
        build_dependencies: sort_ranked(set.build_dependencies),
        build_proc_macro_dependencies: sort_ranked(set.build_proc_macro_dependencies),
        dev_dependencies: sort_ranked(set.dev_dependencies),
        aliased_dependencies: set.aliased_dependencies,
    }
}

impl<'planner> CrateSubplanner<'planner> {
    /// Whether the build is for one target, whose details are known.
    fn is_for_one_target(&self) -> (r: bool)
        ensures
            r == self.deep_view().is_for_one_target(),
    {
        self.platform_details.is_some() && self.settings.target.is_some()
    }

    /// Whether a dependency for this platform is wanted.
    pub fn is_dep_targetted(&self, target: &Option<WrittenPlatform>) -> (r: bool)
        requires
            self.deep_view().is_for_one_target() ==> (target.deep_view() matches Some(platform)
                ==> platform.reads),
        ensures
            r == self.deep_view().is_targetted(
                match target {
                    Some(platform) => Some(platform.deep_view().repr),
                    None => None,
                },
            ),
            r ==> (target.deep_view() matches Some(platform) ==> platform.reads),
    {
        let platform = match target {
            None => {
                return true;
            },
            Some(written) => match written.platform() {
                Some(platform) => platform,
                None => {
                    return false;
                },
            },
        };
        if let (Some(details), Some(triple)) = (self.platform_details, &self.settings.target) {
            return platform.matches(triple.as_str(), details.attrs());
        }
        let (any, all) = is_bazel_supported_platform(platform, &self.facts.bazel_triples);
        any || all
    }

    /// Adds one dependency to `sets`, for each platform and use that it is wanted for. Nothing comes
    /// of it where a platform that is looked at cannot be read.
    fn process_kinds(
        &self,
        sets: &mut Vec<PlatformDeps>,
        name: &str,
        kinds: &Vec<DepKindInfo>,
        dep_package: &Package,
    ) -> (r: Option<Result<(), RazeError>>)
        requires
            has_package(self.deep_view().catalog.packages, dep_package.deep_view().id),
        ensures
            r is Some <==> self.deep_view().kinds_are_clear(
                old(sets).deep_view(),
                name@,
                dep_package.deep_view(),
                kinds.deep_view(),
            ),
            r matches Some(accepted) ==> match accepted {
                Ok(()) => Ok(final(sets).deep_view()),
                Err(error) => Err(error.deep_view()),
            } == self.deep_view().with_kinds(
                old(sets).deep_view(),
                name@,
                dep_package.deep_view(),
                kinds.deep_view(),
            ),
    {
        let ghost view = self.deep_view();
        let ghost first = sets.deep_view();
        let ghost dep = dep_package.deep_view();
        let ghost all = kinds.deep_view();
        let mut i: usize = 0;
        assert(all.take(0) =~= Seq::empty());
        while i < kinds.len()
            invariant
                view == self.deep_view(),
                first == old(sets).deep_view(),
                dep == dep_package.deep_view(),
                all == kinds.deep_view(),
                has_package(view.catalog.packages, dep.id),
                i <= kinds.len(),
                view.is_for_one_target() ==> forall|j: int|
                    0 <= j < i ==> (#[trigger] all[j]).target_reads,
                view.with_kinds(first, name@, dep, all.take(i as int)) == Ok::<
                    Seq<PlatformDepsView>,
                    RazeErrorView,
                >(sets.deep_view()),
            decreases kinds.len() - i,
        {
            let kind = &kinds[i];
            assert(all[i as int] == kind.deep_view());
            let everywhere = None;
            let target = match &kind.target {
                Some(platform) => platform.platform(),
                None => &everywhere,
            };
            if self.is_for_one_target() && kind.target.is_some() && target.is_none() {
                assert(view.with_kinds(first, name@, dep, all.take(i as int)) is Ok);
                return None;
            }
            let ghost before = sets.deep_view();
            proof {
                assert(all.take(i + 1).drop_last() =~= all.take(i as int));
                assert(all.take(i + 1).last() == kind.deep_view());
                lemma_with_kinds_stops(view, first, name@, dep, all, i + 1);
            }
            if self.is_dep_targetted(&kind.target) {
                let at: usize = set_index(sets, target);
                let ghost ready = sets.deep_view();
                let accepted = self.process_dep(&mut sets[at].deps, name, kind, dep_package);
                let ghost added = sets.deep_view()[at as int].deps;
                assert(sets.deep_view() =~= ready.update(
                    at as int,
                    PlatformDepsView { target: kind.deep_view().target, deps: added },
                ));
                match accepted {
                    Ok(()) => {},
                    Err(error) => {
                        proof {
                            lemma_kinds_clear_behind_error(view, first, name@, dep, all, i + 1);
                        }
                        return Some(Err(error));
                    },
                }
            }
            i = i + 1;
        }
        assert(all.take(i as int) =~= all);
        Some(Ok(()))
    }
}

proof fn lemma_kinds_clear_behind_error(
    view: CrateSubplannerView,
    sets: Seq<PlatformDepsView>,
    name: Text,
    dep: PackageView,
    kinds: Seq<DepKindInfoView>,
    n: int,
)
    requires
        0 <= n <= kinds.len(),
        view.with_kinds(sets, name, dep, kinds.take(n)) is Err,
        view.is_for_one_target() ==> forall|i: int|
            0 <= i < n ==> (#[trigger] kinds[i]).target_reads,
    ensures
        view.kinds_are_clear(sets, name, dep, kinds),
{
    assert forall|i: int|
        view.is_for_one_target() && 0 <= i < kinds.len() && view.with_kinds(sets, name, dep, #[trigger] kinds.take(i)) is Ok
        implies kinds[i].target_reads by {
        if i >= n {
            assert(kinds.take(i).take(n) =~= kinds.take(n));
            lemma_with_kinds_stops(view, sets, name, dep, kinds.take(i), n);
        }
    }
}

proof fn lemma_with_kinds_stops(
    view: CrateSubplannerView,
    sets: Seq<PlatformDepsView>,
    name: Text,
    dep: PackageView,
    kinds: Seq<DepKindInfoView>,
    n: int,
)
    requires
        0 <= n <= kinds.len(),
    ensures
        view.with_kinds(sets, name, dep, kinds.take(n)) matches Err(error) ==> view.with_kinds(
            sets,
            name,
            dep,
            kinds,
        ) == Err::<Seq<PlatformDepsView>, RazeErrorView>(error),
    decreases kinds.len() - n,
{
    if n < kinds.len() {
        assert(kinds.take(n + 1).drop_last() =~= kinds.take(n));
        lemma_with_kinds_stops(view, sets, name, dep, kinds, n + 1);
    } else {
        assert(kinds.take(n) =~= kinds);
    }
}

proof fn lemma_declared_deps_stops(view: CrateSubplannerView, deps: Seq<NodeDepView>, n: int)
    requires
        0 <= n <= deps.len(),
    ensures
        view.declared_deps(deps.take(n)) matches Err(error) ==> view.declared_deps(deps) == Err::<
            Seq<PlatformDepsView>,
            RazeErrorView,
        >(error),
    decreases deps.len() - n,
{
    if n < deps.len() {
        assert(deps.take(n + 1).drop_last() =~= deps.take(n));
        lemma_declared_deps_stops(view, deps, n + 1);
    } else {
        assert(deps.take(n) =~= deps);
    }
}

/// Dependencies by platform, each list in order.
pub open spec fn with_sorted_sets(sets: Seq<PlatformDepsView>) -> Seq<PlatformDepsView> {
    sets.map_values(
        |set: PlatformDepsView|
            PlatformDepsView { target: set.target, deps: with_sorted_lists(set.deps) },
    )
}

fn sort_sets(sets: Vec<PlatformDeps>) -> (r: Vec<PlatformDeps>)
    ensures
        r.deep_view() == with_sorted_sets(sets.deep_view()),
        sets_in_order(r.deep_view()),
{
    let mut rest = sets;
    let ghost all = rest.deep_view();
    let mut r: Vec<PlatformDeps> = Vec::new();
    let ghost mut done: int = 0;
    assert(all.skip(0) =~= all);
    assert(r.deep_view() =~= with_sorted_sets(all).take(0));
    while rest.len() > 0
        invariant
            0 <= done <= all.len(),
            rest.deep_view() == all.skip(done),
            r.deep_view() == with_sorted_sets(all).take(done),
            sets_in_order(r.deep_view()),
        decreases rest.len(),
    {
        let ghost before_rest = rest@;
        let ghost before_views = rest.deep_view();
        let ghost before = r.deep_view();
        assert(before_views.len() == before_rest.len());
        let set = rest.remove(0);
        assert(set.deep_view() == all[done]) by {
            assert(before_views[0] == before_rest[0].deep_view());
        }
        r.push(PlatformDeps { target: set.target, deps: sort_lists(set.deps) });
        proof {
            assert(r.deep_view() =~= before.push(with_sorted_sets(all)[done]));
            assert(with_sorted_sets(all).take(done + 1) =~= before.push(
                with_sorted_sets(all)[done],
            ));
            assert(rest.deep_view() =~= all.skip(done + 1)) by {
                assert forall|j: int| 0 <= j < rest.len() implies #[trigger] rest.deep_view()[j]
                    == all.skip(done + 1)[j] by {
                    assert(rest@[j] == before_rest[j + 1]);
                    assert(before_views[j + 1] == before_rest[j + 1].deep_view());
                }
            }
            done = done + 1;
        }
    }
    assert(with_sorted_sets(all).take(done) =~= with_sorted_sets(all));
    r
}

proof fn lemma_deps_clear_behind_error(view: CrateSubplannerView, deps: Seq<NodeDepView>, n: int)
    requires
        0 <= n <= deps.len(),
        view.declared_deps(deps.take(n)) is Err,
        forall|i: int|
            0 <= i < n ==> (view.declared_deps(#[trigger] deps.take(i)) matches Ok(before)
                ==> view.dep_is_clear(before, deps[i])),
    ensures
        view.deps_are_clear(deps),
{
    assert forall|i: int|
        0 <= i < deps.len() && view.declared_deps(#[trigger] deps.take(i)) is Ok implies
        view.dep_is_clear(view.declared_deps(deps.take(i))->Ok_0, deps[i]) by {
        if i >= n {
            assert(deps.take(i).take(n) =~= deps.take(n));
            lemma_declared_deps_stops(view, deps.take(i), n);
        }
    }
}

impl<'planner> CrateSubplanner<'planner> {
    /// The dependencies of the crate by platform, in the order in which they are declared. Nothing
    /// comes of it where one that is looked at is not clear.
    fn gather_deps(&self) -> (r: Option<Result<Vec<PlatformDeps>, RazeError>>)
        ensures
            r is Some <==> self.deep_view().deps_are_clear(self.deep_view().node.deps),
            r matches Some(gathered) ==> outcome(gathered) == self.deep_view().declared_deps(
                self.deep_view().node.deps,
            ),
    {
        let ghost view = self.deep_view();
        let ghost all = view.node.deps;
        let mut sets: Vec<PlatformDeps> = Vec::new();
        let mut i: usize = 0;
        assert(all.take(0) =~= Seq::empty());
        assert(sets.deep_view() =~= Seq::empty());
        while i < self.node.deps.len()
            invariant
                view == self.deep_view(),
                all == view.node.deps,
                i <= self.node.deps.len(),
                forall|j: int|
                    0 <= j < i ==> (view.declared_deps(#[trigger] all.take(j)) matches Ok(before)
                        ==> view.dep_is_clear(before, all[j])),
                view.declared_deps(all.take(i as int)) == Ok::<
                    Seq<PlatformDepsView>,
                    RazeErrorView,
                >(sets.deep_view()),
            decreases self.node.deps.len() - i,
        {
            let dep = &self.node.deps[i];
            proof {
                assert(all[i as int] == dep.deep_view());
                lemma_find_entry(view.catalog, dep.deep_view().pkg);
                assert(all.take(i + 1).drop_last() =~= all.take(i as int));
                assert(all.take(i + 1).last() == dep.deep_view());
                lemma_declared_deps_stops(view, all, i + 1);
            }
            let dep_package = match self.crate_catalog.entry_for_package_id(dep.pkg.as_str()) {
                Some(entry) => entry.package(),
                None => {
                    assert(!view.dep_is_clear(sets.deep_view(), all[i as int]));
                    return None;
                },
            };
            let ident = ident_of(dep_package);
            let skipped = match self.crate_settings {
                Some(settings) => contains_text(&settings.skipped_deps, ident.as_str()),
                None => false,
            };
            assert(skipped == view.is_skipped(dep_package.deep_view()));
            if !skipped {
                let ghost before = sets.deep_view();
                match self.process_kinds(
                    &mut sets,
                    dep.name.as_str(),
                    &dep.dep_kinds,
                    dep_package,
                ) {
                    Some(Ok(())) => {},
                    Some(Err(error)) => {
                        proof {
                            lemma_deps_clear_behind_error(view, all, i + 1);
                        }
                        return Some(Err(error));
                    },
                    None => {
                        assert(!view.dep_is_clear(before, all[i as int]));
                        return None;
                    },
                }
            }
            i = i + 1;
        }
        assert(all.take(i as int) =~= all);
        Some(Ok(sets))
    }

    /// The dependencies of the crate, by platform.
    pub fn produce_deps(&self) -> (r: Result<Vec<PlatformDeps>, RazeError>)
        requires
            self.deep_view().deps_are_clear(self.deep_view().node.deps),
        ensures
            outcome(r) == self.deep_view().deps(),
            r matches Ok(sets) ==> sets_in_order(sets.deep_view()),
    {
        match self.gather_deps().unwrap() {
            Ok(sets) => Ok(sort_sets(sets)),
            Err(error) => Err(error),
        }
    }
}

/// Whether a path is one of a file or directory in or below its first `n` components.
pub open spec fn is_below(path: Seq<PathPartView>, n: int) -> bool {
    &&& 0 <= n < path.len()
    &&& forall|k: int| n <= k < path.len() ==> (#[trigger] path[k] is Name || path[k] is Raw)
}

/// The nearest root is a directory around the path, and no root lies further in. There is none only if
/// no directory around the path is a root.
pub proof fn lemma_nearest_root(roots: Seq<Seq<PathPartView>>, path: Seq<PathPartView>)
    ensures
        nearest_root(roots, path) matches Some(root) ==> {
            &&& has_parent(path)
            &&& root.is_prefix_of(path.drop_last())
            &&& roots.contains(root)
            &&& forall|n: int|
                root.len() < n < path.len() ==> !roots.contains(#[trigger] path.take(n))
        },
        nearest_root(roots, path) is None ==> forall|n: int|
            is_below(path, n) ==> !roots.contains(#[trigger] path.take(n)),
    decreases path.len(),
{
    if path.len() > 0 {
        let outer = path.drop_last();
        assert(path.take(path.len() - 1) =~= outer);
        assert(outer =~= outer.subrange(0, outer.len() as int));
        if has_parent(path) {
            if !roots.contains(outer) {
                lemma_nearest_root(roots, outer);
                assert forall|n: int| 0 <= n < outer.len() implies #[trigger] path.take(n)
                    == outer.take(n) by {
                    assert(path.take(n) =~= outer.take(n));
                }
                if nearest_root(roots, outer) is Some {
                    let root = nearest_root(roots, outer)->Some_0;
                    assert(root =~= outer.drop_last().subrange(0, root.len() as int));
                    assert(root =~= outer.subrange(0, root.len() as int));
                } else {
                    assert forall|n: int| is_below(path, n) implies !roots.contains(
                        #[trigger] path.take(n),
                    ) by {
                        if n < outer.len() {
                            assert forall|k: int| n <= k < outer.len() implies (
                            #[trigger] outer[k] is Name || outer[k] is Raw) by {
                                assert(outer[k] == path[k]);
                            }
                            assert(is_below(outer, n));
                        }
                    }
                }
            }
        } else {
            assert forall|n: int| is_below(path, n) implies !roots.contains(
                #[trigger] path.take(n),
            ) by {
                assert(path[path.len() - 1] is Name || path[path.len() - 1] is Raw);
            }
        }
    }
}

impl<'planner> CrateSubplanner<'planner> {
    /// Whether the sources come from a Git repository.
    fn is_git(&self) -> (r: bool)
        ensures
            r == (self.deep_view().source_id matches Some(id) && id.git),
    {
        match self.source_id {
            Some(id) => id.is_git(),
            None => false,
        }
    }

    /// The root of the package with this manifest.
    ///
    /// A Git repository often holds more than the one crate. Where Bazel fetches it, the root is that
    /// of the repository.
    pub fn find_package_root_for_manifest(&self, manifest_path: &WrittenPath) -> (r: Result<
        FilePath,
        RazeError,
    >)
        requires
            !self.deep_view().has_git_repo_root() ==> has_parent(
                components(manifest_path.deep_view()),
            ),
        ensures
            outcome(r) == self.deep_view().package_root(manifest_path.deep_view()),
            r matches Ok(root) ==> has_parent(components(manifest_path.deep_view()))
                && root.deep_view().is_prefix_of(
                components(manifest_path.deep_view()).drop_last(),
            ),
    {
        let path = manifest_path.path();
        let ghost all = path.deep_view();
        let ghost roots = self.deep_view().facts.git_roots;
        let remote = match self.settings.genmode {
            GenMode::Remote => true,
            _ => false,
        };
        if !(self.is_git() && remote) {
            let parent = path.first_parts(path.parts.len() - 1);
            assert(all.take(all.len() - 1) =~= all.drop_last());
            assert(all.drop_last() =~= all.drop_last().subrange(0, all.drop_last().len() as int));
            return Ok(parent);
        }
        proof {
            lemma_nearest_root(roots, all);
        }
        let mut check_path = path;
        while check_path.has_parent()
            invariant
                all == components(manifest_path.deep_view()),
                self.deep_view().has_git_repo_root(),
                roots == self.deep_view().facts.git_roots,
                nearest_root(roots, all) == nearest_root(roots, check_path.deep_view()),
                nearest_root(roots, all) matches Some(root) ==> has_parent(all)
                    && root.is_prefix_of(all.drop_last()),
            decreases check_path.parts.len(),
        {
            let ghost now = check_path.deep_view();
            let parent = check_path.first_parts(check_path.parts.len() - 1);
            assert(now.take(now.len() - 1) =~= now.drop_last());
            if self.facts.is_git_root(&parent) {
                return Ok(parent);
            }
            assert(parent.parts.len() == parent.deep_view().len());
            check_path = parent;
        }
        Err(
            RazeError::Generic(
                "Unable to locate git repository root for manifest at ".to_owned().concat(
                    manifest_path.printed.as_str(),
                ).concat(". ").concat(PLEASE_FILE_A_BUG),
            ),
        )
    }

    /// What Bazel builds of the package.
    pub fn produce_targets(&self, package_root: &FilePath) -> (r: Result<
        Vec<BuildableTarget>,
        RazeError,
    >)
        ensures
            outcome(r) == self.deep_view().targets(package_root.deep_view()),
    {
        let package = self.crate_catalog_entry.package();
        let ghost all = package.deep_view().targets;
        let ghost root = package_root.deep_view();
        let mut targets: Vec<BuildableTarget> = Vec::new();
        let mut i: usize = 0;
        assert(all.take(0) =~= Seq::empty());
        assert(targets.deep_view() =~= Seq::empty());
        while i < package.targets.len()
            invariant
                all == package.deep_view().targets,
                all == self.deep_view().package().targets,
                root == package_root.deep_view(),
                i <= package.targets.len(),
                declared_targets(all.take(i as int), root) == Ok::<
                    Seq<BuildableTargetView>,
                    RazeErrorView,
                >(targets.deep_view()),
            decreases package.targets.len() - i,
        {
            let target = &package.targets[i];
            proof {
                assert(all[i as int] == target.deep_view());
                assert(all.take(i + 1).drop_last() =~= all.take(i as int));
                assert(all.take(i + 1).last() == target.deep_view());
                lemma_declared_targets_stops(all, root, i + 1);
            }
            let src_path = target.src_path.path();
            let below = match src_path.strip_prefix(package_root) {
                Some(rest) => rest,
                None => src_path,
            };
            let path = match below.to_bazel_path() {
                Some(path) => path,
                None => {
                    return Err(
                        RazeError::InvalidData(
                            target.src_path.printed.clone().concat(
                                " contains non UTF-8 characters and is not a legal path in Bazel",
                            ),
                        ),
                    );
                },
            };
            let ghost before = targets.deep_view();
            let ghost added = targets_of_kinds(target.deep_view(), path@);
            let mut k: usize = 0;
            assert(before + added.take(0) =~= before);
            while k < target.kind.len()
                invariant
                    added == targets_of_kinds(target.deep_view(), path@),
                    k <= target.kind.len(),
                    targets.deep_view() == before + added.take(k as int),
                decreases target.kind.len() - k,
            {
                let ghost now = targets.deep_view();
                targets.push(
                    BuildableTarget {
                        kind: target.kind[k].clone(),
                        name: target.name.clone(),
                        path: path.clone(),
                        edition: target.edition.clone(),
                    },
                );
                assert(target.deep_view().kind[k as int] == target.kind@[k as int]@);
                assert(targets.deep_view() =~= now.push(added[k as int]));
                assert(now.push(added[k as int]) =~= before + added.take(k + 1));
                k = k + 1;
            }
            assert(added.take(k as int) =~= added);
            i = i + 1;
        }
        assert(all.take(i as int) =~= all);
        Ok(sort_ranked(targets))
    }

    /// Takes the build script out of the targets, if it is built: the first, and usually the only
    /// one.
    pub fn take_build_script_target(&self, all_targets: &mut Vec<BuildableTarget>) -> (r: Option<
        BuildableTarget,
    >)
        ensures
            r.deep_view() == self.deep_view().build_script(old(all_targets).deep_view()),
            final(all_targets).deep_view() == self.deep_view().without_build_script(
                old(all_targets).deep_view(),
            ),
    {
        let ghost all = all_targets.deep_view();
        let wanted = match self.crate_settings {
            Some(settings) => match settings.gen_buildrs {
                Some(wanted) => wanted,
                None => self.settings.default_gen_buildrs,
            },
            None => self.settings.default_gen_buildrs,
        };
        if !wanted {
            return None;
        }
        let mut i: usize = 0;
        assert(all.skip(0) =~= all);
        while i < all_targets.len()
            invariant
                self.deep_view().gen_buildrs(),
                all == all_targets.deep_view(),
                all == old(all_targets).deep_view(),
                i <= all_targets.len(),
                first_of_kind(all, "custom-build"@) == i + first_of_kind(
                    all.skip(i as int),
                    "custom-build"@,
                ),
            decreases all_targets.len() - i,
        {
            let ghost before = all_targets@;
            assert(all.skip(i as int)[0] == before[i as int].deep_view());
            if same_text(all_targets[i].kind.as_str(), "custom-build") {
                let taken = all_targets.remove(i);
                assert(all_targets.deep_view() =~= all.remove(i as int)) by {
                    assert(all.len() == before.len());
                    assert forall|j: int| 0 <= j < all_targets.len() implies
                        #[trigger] all_targets.deep_view()[j] == all.remove(i as int)[j] by {
                        assert(all_targets@[j] == before.remove(i as int)[j]);
                    }
                }
                return Some(taken);
            }
            assert(all.skip(i as int).drop_first() =~= all.skip(i + 1));
            i = i + 1;
        }
        None
    }

    /// Where the sources of the package are.
    pub fn produce_source_details(&self, package: &Package, package_root: &FilePath) -> (r:
        SourceDetails)
        requires
            self.deep_view().source_id matches Some(id) ==> (id.git ==> {
                &&& id.precise is Some
                &&& has_parent(components(package.deep_view().manifest_path))
                &&& package_root.deep_view().is_prefix_of(
                    components(package.deep_view().manifest_path).drop_last(),
                )
            }),
        ensures
            r.deep_view() == self.deep_view().source_details(
                package.deep_view().manifest_path,
                package_root.deep_view(),
            ),
    {
        let id = match self.source_id {
            Some(id) => id,
            None => {
                return SourceDetails { git_data: None };
            },
        };
        if !id.is_git() {
            return SourceDetails { git_data: None };
        }
        let ghost manifest = package.manifest_path.deep_view().parts;
        let from: usize = package_root.parts.len();
        let to: usize = package.manifest_path.parts.len() - 1;
        assert(manifest.subrange(from as int, to as int) =~= manifest.drop_last().skip(
            from as int,
        ));
        let path_to_crate_root = if from < to {
            Some(package.manifest_path.text_between(from, to))
        } else {
            None
        };
        SourceDetails {
            git_data: Some(
                GitRepo {
                    remote: id.url.clone(),
                    commit: copy_optional_text(&id.precise).unwrap(),
                    path_to_crate_root,
                },
            ),
        }
    }

    /// The license of the package.
    pub fn produce_license(&self) -> (r: LicenseData)
        ensures
            r.deep_view() == self.deep_view().license(),
    {
        LicenseData {
            license: match &self.crate_catalog_entry.package().license {
                Some(license) => license.clone(),
                None => String::new(),
            },
        }
    }
}

proof fn lemma_declared_targets_stops(targets: Seq<TargetView>, root: Seq<PathPartView>, n: int)
    requires
        0 <= n <= targets.len(),
    ensures
        declared_targets(targets.take(n), root) matches Err(error) ==> declared_targets(
            targets,
            root,
        ) == Err::<Seq<BuildableTargetView>, RazeErrorView>(error),
    decreases targets.len() - n,
{
    if n < targets.len() {
        assert(targets.take(n + 1).drop_last() =~= targets.take(n));
        lemma_declared_targets_stops(targets, root, n + 1);
    } else {
        assert(targets.take(n) =~= targets);
    }
}

/// The name of the first target that is a library or a procedural macro.
fn find_library_name(targets: &Vec<BuildableTarget>) -> (r: Option<String>)
    ensures
        r.deep_view() == library_name(targets.deep_view()),
{
    let ghost all = targets.deep_view();
    let mut i: usize = 0;
    assert(all.skip(0) =~= all);
    while i < targets.len()
        invariant
            all == targets.deep_view(),
            i <= targets.len(),
            library_name(all) == library_name(all.skip(i as int)),
        decreases targets.len() - i,
    {
        let target = &targets[i];
        assert(all.skip(i as int)[0] == target.deep_view());
        if same_text(target.kind.as_str(), "lib") || same_text(
            target.kind.as_str(),
            "proc-macro",
        ) {
            assert(library_name(all.skip(i as int)) == Some(target.name@));
            return Some(target.name.clone());
        }
        assert(all.skip(i as int).drop_first() =~= all.skip(i + 1));
        i = i + 1;
    }
    None
}

impl<'planner> CrateSubplanner<'planner> {
    /// Parts the dependencies for all platforms from those for single ones. Of these, those for
    /// platforms that match no target are left out.
    fn split_deps(&self, sets: Vec<PlatformDeps>) -> (r: (
        CrateDependencyContext,
        Vec<CrateTargetedDepContext>,
    ))
        requires
            sets_in_order(sets.deep_view()),
        ensures
            r.0.deep_view() == set_for(sets.deep_view(), None),
            r.1.deep_view() == self.deep_view().targeted_sets(sets.deep_view()),
            lists_in_order(r.0.deep_view()),
            targeted_in_order(r.1.deep_view()),
    {
        let ghost view = self.deep_view();
        let mut rest = sets;
        let ghost all = rest.deep_view();
        let mut default_deps = CrateDependencyContext::default();
        let mut found = false;
        let mut targeted: Vec<CrateTargetedDepContext> = Vec::new();
        let ghost mut done: int = 0;
        assert(all.skip(0) =~= all);
        assert(all.take(0) =~= Seq::empty());
        assert(targeted.deep_view() =~= Seq::empty());
        while rest.len() > 0
            invariant
                view == self.deep_view(),
                0 <= done <= all.len(),
                rest.deep_view() == all.skip(done),
                targeted.deep_view() == view.targeted_sets(all.take(done)),
                found ==> default_deps.deep_view() == set_for(all, None),
                !found ==> default_deps.deep_view() == CrateDependencyContext::nothing(),
                !found ==> set_for(all, None) == set_for(all.skip(done), None),
                sets_in_order(all),
                lists_in_order(default_deps.deep_view()),
                targeted_in_order(targeted.deep_view()),
            decreases rest.len(),
        {
            let ghost before_rest = rest@;
            let ghost before_views = rest.deep_view();
            let ghost before = targeted.deep_view();
            assert(before_views.len() == before_rest.len());
            let set = rest.remove(0);
            proof {
                assert(set.deep_view() == all[done]) by {
                    assert(before_views[0] == before_rest[0].deep_view());
                }
                assert(all.skip(done)[0] == all[done]);
                assert(all.skip(done).drop_first() =~= all.skip(done + 1));
                assert(all.take(done + 1).drop_last() =~= all.take(done));
                assert(all.take(done + 1).last() == all[done]);
                assert(rest.deep_view() =~= all.skip(done + 1)) by {
                    assert forall|j: int| 0 <= j < rest.len() implies #[trigger] rest.deep_view()[j]
                        == all.skip(done + 1)[j] by {
                        assert(rest@[j] == before_rest[j + 1]);
                        assert(before_views[j + 1] == before_rest[j + 1].deep_view());
                    }
                }
            }
            match set.target {
                None => {
                    if !found {
                        default_deps = set.deps;
                        found = true;
                    }
                },
                Some(platform) => {
                    let platform_targets = get_matching_bazel_triples(
                        &platform,
                        &self.facts.bazel_triples,
                        &self.settings.targets,
                    );
                    if platform_targets.len() > 0 {
                        targeted.push(
                            CrateTargetedDepContext {
                                target: platform.to_text(),
                                deps: set.deps,
                                platform_targets,
                            },
                        );
                        assert(targeted.deep_view() =~= before.push(view.targeted_set(all[done])));
                    }
                },
            }
            proof {
                done = done + 1;
            }
        }
        assert(all.take(done) =~= all);
        (default_deps, targeted)
    }

    /// Whether enough is known of the crate to plan it, or to tell why it cannot be planned.
    pub fn is_complete(&self) -> (r: bool)
        ensures
            r == self.deep_view().is_complete(),
    {
        let package = self.crate_catalog_entry.package();
        let manifest = package.manifest_path.path();
        let remote = match self.settings.genmode {
            GenMode::Remote => true,
            _ => false,
        };
        if !manifest.is_absolute() || !(self.is_git() && remote || manifest.has_parent()) {
            return false;
        }
        let package_root = match self.find_package_root_for_manifest(&package.manifest_path) {
            Ok(root) => root,
            Err(_) => {
                return true;
            },
        };
        match self.produce_targets(&package_root) {
            Ok(_) => {},
            Err(_) => {
                return true;
            },
        }
        match self.gather_deps() {
            Some(Ok(_)) => {},
            Some(Err(_)) => {
                return true;
            },
            None => {
                return false;
            },
        }
        let unspecified = match self.settings.genmode {
            GenMode::Unspecified => true,
            _ => false,
        };
        let locked = match self.source_id {
            Some(id) => !id.is_git() || id.precise.is_some(),
            None => true,
        };
        unspecified || locked
    }

    /// The context of the crate.
    pub fn produce_context(&self) -> (r: Result<CrateContext, RazeError>)
        requires
            self.deep_view().is_complete(),
        ensures
            outcome(r) == self.deep_view().context(),
            r matches Ok(context) ==> deps_in_order(context.deep_view()),
    {
        let package = self.crate_catalog_entry.package();
        let package_root = match self.find_package_root_for_manifest(&package.manifest_path) {
            Ok(root) => root,
            Err(error) => {
                return Err(error);
            },
        };
        let mut targets = match self.produce_targets(&package_root) {
            Ok(targets) => targets,
            Err(error) => {
                return Err(error);
            },
        };
        let build_script_target = self.take_build_script_target(&mut targets);
        let lib_target_name = find_library_name(&targets);
        let deps = match self.produce_deps() {
            Ok(deps) => deps,
            Err(error) => {
                return Err(error);
            },
        };
        let (default_deps, targeted_deps) = self.split_deps(deps);
        proof {
            lemma_targeted_stay_in_order(targeted_deps.deep_view());
        }
        let targeted_deps = sort_ranked(targeted_deps);
        let workspace_path_to_crate = match self.crate_catalog_entry.workspace_path(self.settings) {
            Ok(path) => path,
            Err(error) => {
                return Err(error);
            },
        };
        let expected_build_path = match self.crate_catalog_entry.local_build_path(self.settings) {
            Ok(path) => path,
            Err(error) => {
                return Err(error);
            },
        };
        Ok(
            CrateContext {
                pkg_name: package.name.clone(),
                pkg_version: package.version.clone(),
                edition: package.edition.clone(),
                raze_settings: match self.crate_settings {
                    Some(settings) => settings.clone(),
                    None => CrateSettings::default(),
                },
                license: self.produce_license(),
                features: copy_texts(&self.node.features),
                workspace_path_to_crate,
                default_deps,
                targeted_deps,
                is_root_dependency: self.crate_catalog_entry.is_root_dep(),
                targets,
                build_script_target,
                source_details: self.produce_source_details(package, &package_root),
                sha256: copy_optional_text(self.sha256),
                registry_url: format_registry_url(
                    self.settings.registry.as_str(),
                    package.name.as_str(),
                    package.version.to_text().as_str(),
                ),
                expected_build_path,
                lib_target_name,
            },
        )
    }
}

proof fn lemma_targeted_stay_in_order(targeted: Seq<CrateTargetedDepContextView>)
    requires
        targeted_in_order(targeted),
    ensures
        targeted_in_order(stable_sorted::<CrateTargetedDepContext>(targeted)),
{
    let sorted = stable_sorted::<CrateTargetedDepContext>(targeted);
    lemma_stable_sorted_keeps_items::<CrateTargetedDepContext>(targeted);
    assert forall|i: int| 0 <= i < sorted.len() implies lists_in_order(
        (#[trigger] sorted[i]).deps,
    ) by {
        assert(sorted.contains(sorted[i]));
        let j = choose|j: int| 0 <= j < targeted.len() && targeted[j] == sorted[i];
        assert(lists_in_order(targeted[j].deps));
    }
}

} // verus!
