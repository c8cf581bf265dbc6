//! What the planner hands to the renderer.

use vstd::prelude::*;

use crate::settings::{CrateSettings, CrateSettingsView};
use crate::sorting::{insert_ranked, inserted, ranks_are_total, Ranked};
use crate::text::{
    copy_optional_text, copy_texts, is_before, lemma_text_order_total, lemma_text_order_transitive,
    text_before, text_le, Text,
};
use crate::version::{version_le, version_reads, Version};

verus! {

/// The context of a whole workspace.
#[derive(Debug, PartialEq, Eq)]
pub struct WorkspaceContext {
    /// The Bazel path of the workspace.
    pub workspace_path: String,
    /// What the names of generated repositories begin with.
    pub gen_workspace_prefix: String,
    /// What BUILD files are called.
    pub output_buildfile_suffix: String,
}

/// What a [`WorkspaceContext`] holds.
#[verifier::ext_equal]
pub struct WorkspaceContextView {
    pub workspace_path: Text,
    pub gen_workspace_prefix: Text,
    pub output_buildfile_suffix: Text,
}

impl DeepView for WorkspaceContext {
    type V = WorkspaceContextView;

    open spec fn deep_view(&self) -> WorkspaceContextView {
        WorkspaceContextView {
            workspace_path: self.workspace_path.deep_view(),
            gen_workspace_prefix: self.gen_workspace_prefix.deep_view(),
            output_buildfile_suffix: self.output_buildfile_suffix.deep_view(),
        }
    }
}

impl Clone for WorkspaceContext {
    fn clone(&self) -> (r: Self)
        ensures
            r.deep_view() == self.deep_view(),
    {
        WorkspaceContext {
            workspace_path: self.workspace_path.clone(),
            gen_workspace_prefix: self.gen_workspace_prefix.clone(),
            output_buildfile_suffix: self.output_buildfile_suffix.clone(),
        }
    }
}

/// A crate that another one is built with.
#[derive(Debug, PartialEq, Eq)]
pub struct BuildableDependency {
    /// The Bazel label of the crate.
    pub buildable_target: String,
    pub name: String,
    pub version: Version,
    pub is_proc_macro: bool,
}

/// What a [`BuildableDependency`] holds.
#[verifier::ext_equal]
pub struct BuildableDependencyView {
    pub buildable_target: Text,
    pub name: Text,
    pub version: Text,
    pub is_proc_macro: bool,
}

impl DeepView for BuildableDependency {
    type V = BuildableDependencyView;

    open spec fn deep_view(&self) -> BuildableDependencyView {
        BuildableDependencyView {
            buildable_target: self.buildable_target.deep_view(),
            name: self.name.deep_view(),
            version: self.version.deep_view(),
            is_proc_macro: self.is_proc_macro,
        }
    }
}

impl Clone for BuildableDependency {
    fn clone(&self) -> (r: Self)
        ensures
            r.deep_view() == self.deep_view(),
    {
        BuildableDependency {
            buildable_target: self.buildable_target.clone(),
            name: self.name.clone(),
            version: self.version.clone(),
            is_proc_macro: self.is_proc_macro,
        }
    }
}

/// Something that a crate can be built into.
#[derive(Debug, PartialEq, Eq)]
pub struct BuildableTarget {
    pub kind: String,
    pub name: String,
    /// The path of the target's entry point as Bazel writes it, below the package's root.
    pub path: String,
    pub edition: String,
}

/// What a [`BuildableTarget`] holds.
#[verifier::ext_equal]
pub struct BuildableTargetView {
    pub kind: Text,
    pub name: Text,
    pub path: Text,
    pub edition: Text,
}

impl DeepView for BuildableTarget {
    type V = BuildableTargetView;

    open spec fn deep_view(&self) -> BuildableTargetView {
        BuildableTargetView {
            kind: self.kind.deep_view(),
            name: self.name.deep_view(),
            path: self.path.deep_view(),
            edition: self.edition.deep_view(),
        }
    }
}

impl Clone for BuildableTarget {
    fn clone(&self) -> (r: Self)
        ensures
            r.deep_view() == self.deep_view(),
    {
        BuildableTarget {
            kind: self.kind.clone(),
            name: self.name.clone(),
            path: self.path.clone(),
            edition: self.edition.clone(),
        }
    }
}

/// Another name for a Bazel target.
#[derive(Debug, PartialEq, Eq)]
pub struct DependencyAlias {
    pub target: String,
    pub alias: String,
}

/// What a [`DependencyAlias`] holds.
#[verifier::ext_equal]
pub struct DependencyAliasView {
    pub target: Text,
    pub alias: Text,
}

impl DeepView for DependencyAlias {
    type V = DependencyAliasView;

    open spec fn deep_view(&self) -> DependencyAliasView {
        DependencyAliasView {
            target: self.target.deep_view(),
            alias: self.alias.deep_view(),
        }
    }
}

impl Clone for DependencyAlias {
    fn clone(&self) -> (r: Self)
        ensures
            r.deep_view() == self.deep_view(),
    {
        DependencyAlias {
            target: self.target.clone(),
            alias: self.alias.clone(),
        }
    }
}

/// What a crate is built with, by how it is used.
#[derive(Debug, PartialEq, Eq)]
pub struct CrateDependencyContext {
    pub dependencies: Vec<BuildableDependency>,
    pub proc_macro_dependencies: Vec<BuildableDependency>,
    pub build_dependencies: Vec<BuildableDependency>,
    pub build_proc_macro_dependencies: Vec<BuildableDependency>,
    pub dev_dependencies: Vec<BuildableDependency>,
    /// In order, and none of them twice.
    pub aliased_dependencies: Vec<DependencyAlias>,
}

/// What a [`CrateDependencyContext`] holds.
#[verifier::ext_equal]
pub struct CrateDependencyContextView {
    pub dependencies: Seq<BuildableDependencyView>,
    pub proc_macro_dependencies: Seq<BuildableDependencyView>,
    pub build_dependencies: Seq<BuildableDependencyView>,
    pub build_proc_macro_dependencies: Seq<BuildableDependencyView>,
    pub dev_dependencies: Seq<BuildableDependencyView>,
    pub aliased_dependencies: Seq<DependencyAliasView>,
}

impl DeepView for CrateDependencyContext {
    type V = CrateDependencyContextView;

    open spec fn deep_view(&self) -> CrateDependencyContextView {
        CrateDependencyContextView {
            dependencies: self.dependencies.deep_view(),
            proc_macro_dependencies: self.proc_macro_dependencies.deep_view(),
            build_dependencies: self.build_dependencies.deep_view(),
            build_proc_macro_dependencies: self.build_proc_macro_dependencies.deep_view(),
            dev_dependencies: self.dev_dependencies.deep_view(),
            aliased_dependencies: self.aliased_dependencies.deep_view(),
        }
    }
}

impl Clone for CrateDependencyContext {
    fn clone(&self) -> (r: Self)
        ensures
            r.deep_view() == self.deep_view(),
    {
        let dependencies = self.dependencies.clone();
        assert(dependencies.deep_view() =~= self.dependencies.deep_view());
        let proc_macro_dependencies = self.proc_macro_dependencies.clone();
        assert(proc_macro_dependencies.deep_view() =~= self.proc_macro_dependencies.deep_view());
        let build_dependencies = self.build_dependencies.clone();
        assert(build_dependencies.deep_view() =~= self.build_dependencies.deep_view());
        let build_proc_macro_dependencies = self.build_proc_macro_dependencies.clone();
        assert(build_proc_macro_dependencies.deep_view() =~= self.build_proc_macro_dependencies.deep_view());
        let dev_dependencies = self.dev_dependencies.clone();
        assert(dev_dependencies.deep_view() =~= self.dev_dependencies.deep_view());
        let aliased_dependencies = self.aliased_dependencies.clone();
        assert(aliased_dependencies.deep_view() =~= self.aliased_dependencies.deep_view());
        CrateDependencyContext {
            dependencies,
            proc_macro_dependencies,
            build_dependencies,
            build_proc_macro_dependencies,
            dev_dependencies,
            aliased_dependencies,
        }
    }
}

/// What a crate is built with on some platforms.
#[derive(Debug, PartialEq, Eq)]
pub struct CrateTargetedDepContext {
    /// The platform, as the manifest names it.
    pub target: String,
    pub deps: CrateDependencyContext,
    /// The supported targets that the platform stands for.
    pub platform_targets: Vec<String>,
}

/// What a [`CrateTargetedDepContext`] holds.
#[verifier::ext_equal]
pub struct CrateTargetedDepContextView {
    pub target: Text,
    pub deps: CrateDependencyContextView,
    pub platform_targets: Seq<Text>,
}

impl DeepView for CrateTargetedDepContext {
    type V = CrateTargetedDepContextView;

    open spec fn deep_view(&self) -> CrateTargetedDepContextView {
        CrateTargetedDepContextView {
            target: self.target.deep_view(),
            deps: self.deps.deep_view(),
            platform_targets: self.platform_targets.deep_view(),
        }
    }
}

impl Clone for CrateTargetedDepContext {
    fn clone(&self) -> (r: Self)
        ensures
            r.deep_view() == self.deep_view(),
    {
        CrateTargetedDepContext {
            target: self.target.clone(),
            deps: self.deps.clone(),
            platform_targets: copy_texts(&self.platform_targets),
        }
    }
}

/// The license of a crate.
#[derive(Debug, PartialEq, Eq)]
pub struct LicenseData {
    /// What the manifest says of the license; empty if it says nothing.
    pub license: String,
}

/// What a [`LicenseData`] holds.
#[verifier::ext_equal]
pub struct LicenseDataView {
    pub license: Text,
}

impl DeepView for LicenseData {
    type V = LicenseDataView;

    open spec fn deep_view(&self) -> LicenseDataView {
        LicenseDataView {
            license: self.license.deep_view(),
        }
    }
}

impl Clone for LicenseData {
    fn clone(&self) -> (r: Self)
        ensures
            r.deep_view() == self.deep_view(),
    {
        LicenseData {
            license: self.license.clone(),
        }
    }
}

/// The Git repository that holds a crate.
#[derive(Debug, PartialEq, Eq)]
pub struct GitRepo {
    pub remote: String,
    pub commit: String,
    /// Where in the repository the crate is, unless it is at its top.
    pub path_to_crate_root: Option<String>,
}

/// What a [`GitRepo`] holds.
#[verifier::ext_equal]
pub struct GitRepoView {
    pub remote: Text,
    pub commit: Text,
    pub path_to_crate_root: Option<Text>,
}

impl DeepView for GitRepo {
    type V = GitRepoView;

    open spec fn deep_view(&self) -> GitRepoView {
        GitRepoView {
            remote: self.remote.deep_view(),
            commit: self.commit.deep_view(),
            path_to_crate_root: self.path_to_crate_root.deep_view(),
        }
    }
}

impl Clone for GitRepo {
    fn clone(&self) -> (r: Self)
        ensures
            r.deep_view() == self.deep_view(),
    {
        GitRepo {
            remote: self.remote.clone(),
            commit: self.commit.clone(),
            path_to_crate_root: copy_optional_text(&self.path_to_crate_root),
        }
    }
}

/// Where the sources of a crate come from.
#[derive(Debug, PartialEq, Eq)]
pub struct SourceDetails {
    pub git_data: Option<GitRepo>,
}

/// What a [`SourceDetails`] holds.
#[verifier::ext_equal]
pub struct SourceDetailsView {
    pub git_data: Option<GitRepoView>,
}

impl DeepView for SourceDetails {
    type V = SourceDetailsView;

    open spec fn deep_view(&self) -> SourceDetailsView {
        SourceDetailsView {
            git_data: self.git_data.deep_view(),
        }
    }
}

impl Clone for SourceDetails {
    fn clone(&self) -> (r: Self)
        ensures
            r.deep_view() == self.deep_view(),
    {
        SourceDetails {
            git_data: self.git_data.clone(),
        }
    }
}

/// The context of a crate.
#[derive(Debug, PartialEq, Eq)]
pub struct CrateContext {
    pub pkg_name: String,
    pub pkg_version: Version,
    pub edition: String,
    pub raze_settings: CrateSettings,
    pub license: LicenseData,
    pub features: Vec<String>,
    pub workspace_path_to_crate: String,
    /// What the crate is built with on every platform.
    pub default_deps: CrateDependencyContext,
    /// What it is built with on some platforms only.
    pub targeted_deps: Vec<CrateTargetedDepContext>,
    pub is_root_dependency: bool,
    pub targets: Vec<BuildableTarget>,
    pub build_script_target: Option<BuildableTarget>,
    pub source_details: SourceDetails,
    pub sha256: Option<String>,
    pub registry_url: String,
    pub expected_build_path: String,
    pub lib_target_name: Option<String>,
}

/// What a [`CrateContext`] holds.
#[verifier::ext_equal]
pub struct CrateContextView {
    pub pkg_name: Text,
    pub pkg_version: Text,
    pub edition: Text,
    pub raze_settings: CrateSettingsView,
    pub license: LicenseDataView,
    pub features: Seq<Text>,
    pub workspace_path_to_crate: Text,
    pub default_deps: CrateDependencyContextView,
    pub targeted_deps: Seq<CrateTargetedDepContextView>,
    pub is_root_dependency: bool,
    pub targets: Seq<BuildableTargetView>,
    pub build_script_target: Option<BuildableTargetView>,
    pub source_details: SourceDetailsView,
    pub sha256: Option<Text>,
    pub registry_url: Text,
    pub expected_build_path: Text,
    pub lib_target_name: Option<Text>,
}

impl DeepView for CrateContext {
    type V = CrateContextView;

    open spec fn deep_view(&self) -> CrateContextView {
        CrateContextView {
            pkg_name: self.pkg_name.deep_view(),
            pkg_version: self.pkg_version.deep_view(),
            edition: self.edition.deep_view(),
            raze_settings: self.raze_settings.deep_view(),
            license: self.license.deep_view(),
            features: self.features.deep_view(),
            workspace_path_to_crate: self.workspace_path_to_crate.deep_view(),
            default_deps: self.default_deps.deep_view(),
            targeted_deps: self.targeted_deps.deep_view(),
            is_root_dependency: self.is_root_dependency,
            targets: self.targets.deep_view(),
            build_script_target: self.build_script_target.deep_view(),
            source_details: self.source_details.deep_view(),
            sha256: self.sha256.deep_view(),
            registry_url: self.registry_url.deep_view(),
            expected_build_path: self.expected_build_path.deep_view(),
            lib_target_name: self.lib_target_name.deep_view(),
        }
    }
}

impl Clone for CrateContext {
    fn clone(&self) -> (r: Self)
        ensures
            r.deep_view() == self.deep_view(),
    {
        let targeted_deps = self.targeted_deps.clone();
        assert(targeted_deps.deep_view() =~= self.targeted_deps.deep_view());
        let targets = self.targets.clone();
        assert(targets.deep_view() =~= self.targets.deep_view());
        CrateContext {
            pkg_name: self.pkg_name.clone(),
            pkg_version: self.pkg_version.clone(),
            edition: self.edition.clone(),
            raze_settings: self.raze_settings.clone(),
            license: self.license.clone(),
            features: copy_texts(&self.features),
            workspace_path_to_crate: self.workspace_path_to_crate.clone(),
            default_deps: self.default_deps.clone(),
            targeted_deps,
            is_root_dependency: self.is_root_dependency,
            targets,
            build_script_target: self.build_script_target.clone(),
            source_details: self.source_details.clone(),
            sha256: copy_optional_text(&self.sha256),
            registry_url: self.registry_url.clone(),
            expected_build_path: self.expected_build_path.clone(),
            lib_target_name: copy_optional_text(&self.lib_target_name),
        }
    }
}

impl CrateDependencyContext {
    /// Nothing to build with.
    pub open spec fn nothing() -> CrateDependencyContextView {
        CrateDependencyContextView {
            dependencies: Seq::empty(),
            proc_macro_dependencies: Seq::empty(),
            build_dependencies: Seq::empty(),
            build_proc_macro_dependencies: Seq::empty(),
            dev_dependencies: Seq::empty(),
            aliased_dependencies: Seq::empty(),
        }
    }
}

impl Default for CrateDependencyContext {
    fn default() -> (r: Self)
        ensures
            r.deep_view() == CrateDependencyContext::nothing(),
    {
        let r = CrateDependencyContext {
            dependencies: Vec::new(),
            proc_macro_dependencies: Vec::new(),
            build_dependencies: Vec::new(),
            build_proc_macro_dependencies: Vec::new(),
            dev_dependencies: Vec::new(),
            aliased_dependencies: Vec::new(),
        };
        assert(r.deep_view() =~= CrateDependencyContext::nothing());
        r
    }
}

/// By label, then name, then version; of two that agree in these, the one that is no procedural macro
/// comes first.
pub open spec fn dependency_le(a: BuildableDependencyView, b: BuildableDependencyView) -> bool {
    if a.buildable_target != b.buildable_target {
        text_before(a.buildable_target, b.buildable_target)
    } else if a.name != b.name {
        text_before(a.name, b.name)
    } else if a.version != b.version {
        version_le(a.version, b.version)
    } else {
        a.is_proc_macro ==> b.is_proc_macro
    }
}

impl Ranked for BuildableDependency {
    /// By label, then name, then version; of two that agree in these, the one that is no procedural
    /// macro comes first.
    open spec fn ranks_le(a: BuildableDependencyView, b: BuildableDependencyView) -> bool {
        dependency_le(a, b)
    }

    /// The version is one.
    open spec fn is_held(a: BuildableDependencyView) -> bool {
        version_reads(a.version)
    }

    fn is_item(&self) -> (r: bool) {
        self.version.is_readable()
    }

    fn may_precede(&self, other: &Self) -> (r: bool) {
        let r = if self.buildable_target != other.buildable_target {
            is_before(self.buildable_target.as_str(), other.buildable_target.as_str())
        } else if self.name != other.name {
            is_before(self.name.as_str(), other.name.as_str())
        } else if !self.version.same(&other.version) {
            self.version.at_most(&other.version)
        } else {
            !self.is_proc_macro || other.is_proc_macro
        };
        proof {
            let a = self.deep_view();
            let b = other.deep_view();
            lemma_text_order_total(a.buildable_target, b.buildable_target);
            lemma_text_order_total(a.name, b.name);
            if r {
                assert forall|c: BuildableDependencyView|
                    version_reads(c.version) && #[trigger] dependency_le(c, a) implies dependency_le(
                    c,
                    b,
                ) by {
                    lemma_before_or_same(c.buildable_target, a.buildable_target, b.buildable_target);
                    lemma_before_or_same(c.name, a.name, b.name);
                }
            }
        }
        r
    }
}

/// By kind, then name, then path, then edition.
pub open spec fn target_le(a: BuildableTargetView, b: BuildableTargetView) -> bool {
    if a.kind != b.kind {
        text_before(a.kind, b.kind)
    } else if a.name != b.name {
        text_before(a.name, b.name)
    } else if a.path != b.path {
        text_before(a.path, b.path)
    } else {
        text_le(a.edition, b.edition)
    }
}

impl Ranked for BuildableTarget {
    /// By kind, then name, then path, then edition.
    open spec fn ranks_le(a: BuildableTargetView, b: BuildableTargetView) -> bool {
        target_le(a, b)
    }

    open spec fn is_held(a: BuildableTargetView) -> bool {
        true
    }

    fn is_item(&self) -> (r: bool) {
        true
    }

    fn may_precede(&self, other: &Self) -> (r: bool) {
        proof {
            lemma_target_order();
        }
        if self.kind != other.kind {
            is_before(self.kind.as_str(), other.kind.as_str())
        } else if self.name != other.name {
            is_before(self.name.as_str(), other.name.as_str())
        } else if self.path != other.path {
            is_before(self.path.as_str(), other.path.as_str())
        } else {
            !is_before(other.edition.as_str(), self.edition.as_str())
        }
    }
}

/// By target, then alias.
pub open spec fn alias_le(a: DependencyAliasView, b: DependencyAliasView) -> bool {
    if a.target != b.target {
        text_before(a.target, b.target)
    } else {
        text_le(a.alias, b.alias)
    }
}

impl Ranked for DependencyAlias {
    /// By target, then alias.
    open spec fn ranks_le(a: DependencyAliasView, b: DependencyAliasView) -> bool {
        alias_le(a, b)
    }

    open spec fn is_held(a: DependencyAliasView) -> bool {
        true
    }

    fn is_item(&self) -> (r: bool) {
        true
    }

    fn may_precede(&self, other: &Self) -> (r: bool) {
        proof {
            lemma_alias_order();
        }
        if self.target != other.target {
            is_before(self.target.as_str(), other.target.as_str())
        } else {
            !is_before(other.alias.as_str(), self.alias.as_str())
        }
    }
}

/// By platform.
pub open spec fn platform_le(a: CrateTargetedDepContextView, b: CrateTargetedDepContextView) -> bool {
    text_le(a.target, b.target)
}

impl Ranked for CrateTargetedDepContext {
    /// By platform.
    open spec fn ranks_le(a: CrateTargetedDepContextView, b: CrateTargetedDepContextView) -> bool {
        platform_le(a, b)
    }

    open spec fn is_held(a: CrateTargetedDepContextView) -> bool {
        true
    }

    fn is_item(&self) -> (r: bool) {
        true
    }

    fn may_precede(&self, other: &Self) -> (r: bool) {
        proof {
            lemma_platform_order();
        }
        !is_before(other.target.as_str(), self.target.as_str())
    }
}

/// The order of aliases is total.
pub proof fn lemma_alias_ranks()
    ensures
        ranks_are_total::<DependencyAlias>(),
{
    lemma_alias_order();
    assert forall|a: DependencyAliasView, b: DependencyAliasView|
        #![trigger DependencyAlias::ranks_le(a, b)]
        DependencyAlias::ranks_le(a, b) || DependencyAlias::ranks_le(b, a) by {
        assert(alias_le(a, b) || alias_le(b, a));
    }
    assert forall|a: DependencyAliasView, b: DependencyAliasView, c: DependencyAliasView|
        #![trigger DependencyAlias::ranks_le(a, b), DependencyAlias::ranks_le(b, c)]
        DependencyAlias::ranks_le(a, b) && DependencyAlias::ranks_le(b, c) implies DependencyAlias::ranks_le(a, c) by {
        assert(alias_le(a, b) && alias_le(b, c));
    }
}

proof fn lemma_alias_order()
    ensures
        forall|a: DependencyAliasView, b: DependencyAliasView|
            #![trigger alias_le(a, b)]
            alias_le(a, b) || alias_le(b, a),
        forall|a: DependencyAliasView, b: DependencyAliasView, c: DependencyAliasView|
            #![trigger alias_le(a, b), alias_le(b, c)]
            alias_le(a, b) && alias_le(b, c) ==> alias_le(a, c),
{
    assert forall|a: DependencyAliasView, b: DependencyAliasView|
        #![trigger alias_le(a, b)]
        alias_le(a, b) || alias_le(b, a) by {
        lemma_text_order_total(a.target, b.target);
        lemma_text_order_total(a.alias, b.alias);
    }
    assert forall|a: DependencyAliasView, b: DependencyAliasView, c: DependencyAliasView|
        #![trigger alias_le(a, b), alias_le(b, c)]
        alias_le(a, b) && alias_le(
            b,
            c,
        ) implies alias_le(a, c) by {
        lemma_text_order_total(a.target, b.target);
        lemma_text_order_total(b.target, c.target);
        lemma_text_order_total(a.target, c.target);
        if text_le(a.target, b.target) && text_le(b.target, c.target) {
            lemma_text_order_transitive(a.target, b.target, c.target);
        }
        if text_le(a.alias, b.alias) && text_le(b.alias, c.alias) {
            lemma_text_order_transitive(a.alias, b.alias, c.alias);
        }
    }
}

/// The order of targets is total.
pub proof fn lemma_target_ranks()
    ensures
        ranks_are_total::<BuildableTarget>(),
{
    lemma_target_order();
    assert forall|a: BuildableTargetView, b: BuildableTargetView|
        #![trigger BuildableTarget::ranks_le(a, b)]
        BuildableTarget::ranks_le(a, b) || BuildableTarget::ranks_le(b, a) by {
        assert(target_le(a, b) || target_le(b, a));
    }
    assert forall|a: BuildableTargetView, b: BuildableTargetView, c: BuildableTargetView|
        #![trigger BuildableTarget::ranks_le(a, b), BuildableTarget::ranks_le(b, c)]
        BuildableTarget::ranks_le(a, b) && BuildableTarget::ranks_le(b, c) implies BuildableTarget::ranks_le(a, c) by {
        assert(target_le(a, b) && target_le(b, c));
    }
}

proof fn lemma_target_order()
    ensures
        forall|a: BuildableTargetView, b: BuildableTargetView|
            #![trigger target_le(a, b)]
            target_le(a, b) || target_le(b, a),
        forall|a: BuildableTargetView, b: BuildableTargetView, c: BuildableTargetView|
            #![trigger target_le(a, b), target_le(b, c)]
            target_le(a, b) && target_le(b, c) ==> target_le(a, c),
{
    assert forall|a: BuildableTargetView, b: BuildableTargetView|
        #![trigger target_le(a, b)]
        target_le(a, b) || target_le(b, a) by {
        lemma_text_order_total(a.kind, b.kind);
        lemma_text_order_total(a.name, b.name);
        lemma_text_order_total(a.path, b.path);
        lemma_text_order_total(a.edition, b.edition);
    }
    assert forall|a: BuildableTargetView, b: BuildableTargetView, c: BuildableTargetView|
        #![trigger target_le(a, b), target_le(b, c)]
        target_le(a, b) && target_le(
            b,
            c,
        ) implies target_le(a, c) by {
        lemma_before_or_same(a.kind, b.kind, c.kind);
        lemma_before_or_same(a.name, b.name, c.name);
        lemma_before_or_same(a.path, b.path, c.path);
        if text_le(a.edition, b.edition) && text_le(b.edition, c.edition) {
            lemma_text_order_transitive(a.edition, b.edition, c.edition);
        }
    }
}

proof fn lemma_before_or_same(a: Text, b: Text, c: Text)
    ensures
        a != b ==> text_before(a, b) == text_le(a, b),
        b != c ==> text_before(b, c) == text_le(b, c),
        a != c ==> text_before(a, c) == text_le(a, c),
        text_before(a, b) && text_before(b, c) ==> a != c && text_before(a, c),
{
    lemma_text_order_total(a, b);
    lemma_text_order_total(b, c);
    lemma_text_order_total(a, c);
    if text_before(a, b) && text_before(b, c) {
        lemma_text_order_transitive(a, b, c);
    }
}

/// The order of platforms is total.
pub proof fn lemma_targeted_ranks()
    ensures
        ranks_are_total::<CrateTargetedDepContext>(),
{
    lemma_platform_order();
    assert forall|a: CrateTargetedDepContextView, b: CrateTargetedDepContextView|
        #![trigger CrateTargetedDepContext::ranks_le(a, b)]
        CrateTargetedDepContext::ranks_le(a, b) || CrateTargetedDepContext::ranks_le(b, a) by {
        assert(platform_le(a, b) || platform_le(b, a));
    }
    assert forall|a: CrateTargetedDepContextView, b: CrateTargetedDepContextView, c: CrateTargetedDepContextView|
        #![trigger CrateTargetedDepContext::ranks_le(a, b), CrateTargetedDepContext::ranks_le(b, c)]
        CrateTargetedDepContext::ranks_le(a, b) && CrateTargetedDepContext::ranks_le(b, c) implies CrateTargetedDepContext::ranks_le(a, c) by {
        assert(platform_le(a, b) && platform_le(b, c));
    }
}

proof fn lemma_platform_order()
    ensures
        forall|a: CrateTargetedDepContextView, b: CrateTargetedDepContextView|
            #![trigger platform_le(a, b)]
            platform_le(a, b) || platform_le(b, a),
        forall|a: CrateTargetedDepContextView, b: CrateTargetedDepContextView, c: CrateTargetedDepContextView|
            #![trigger platform_le(a, b), platform_le(b, c)]
            platform_le(a, b) && platform_le(b, c) ==> platform_le(a, c),
{
    assert forall|a: CrateTargetedDepContextView, b: CrateTargetedDepContextView|
        #![trigger platform_le(a, b)]
        platform_le(a, b) || platform_le(b, a) by {
        lemma_text_order_total(a.target, b.target);
    }
    assert forall|
        a: CrateTargetedDepContextView,
        b: CrateTargetedDepContextView,
        c: CrateTargetedDepContextView,
    |
        #![trigger platform_le(a, b), platform_le(b, c)]
        platform_le(a, b) && platform_le(
            b,
            c,
        ) implies platform_le(a, c) by {
        lemma_text_order_transitive(a.target, b.target, c.target);
    }
}

impl DependencyAlias {
    /// Whether two aliases are the same.
    pub fn same(&self, other: &DependencyAlias) -> (r: bool)
        ensures
            r == (self.deep_view() == other.deep_view()),
    {
        self.target == other.target && self.alias == other.alias
    }
}

/// Adds an alias to a list of aliases that is in order, unless it is there. Tells whether it was
/// added.
pub fn insert_alias(aliases: &mut Vec<DependencyAlias>, alias: DependencyAlias) -> (r: bool)
    ensures
        r == !old(aliases).deep_view().contains(alias.deep_view()),
        final(aliases).deep_view() == (if r {
            inserted::<DependencyAlias>(old(aliases).deep_view(), alias.deep_view())
        } else {
            old(aliases).deep_view()
        }),
{
    let ghost all = aliases.deep_view();
    let mut i: usize = 0;
    while i < aliases.len()
        invariant
            aliases.deep_view() == all,
            i <= aliases.len(),
            forall|j: int| 0 <= j < i ==> all[j] != alias.deep_view(),
        decreases aliases.len() - i,
    {
        assert(all[i as int] == aliases@[i as int].deep_view());
        if aliases[i].same(&alias) {
            return false;
        }
        i = i + 1;
    }
    insert_ranked(aliases, alias);
    true
}

} // verus!
