//! Planning a build: from what Cargo says of a workspace to what is rendered.

pub mod checks;
pub mod checksums;
pub mod crate_catalog;
pub mod crate_subplanner;
pub mod dependency_laws;
pub mod facts;
pub mod failure_laws;
pub mod laws;
pub mod plan_laws;
pub mod planner_laws;
pub mod settings_laws;
pub mod target_laws;
pub mod use_laws;
pub mod workspace_subplanner;

use vstd::prelude::*;

use crate::context::{
    CrateContext, CrateContextView, DependencyAlias, DependencyAliasView, WorkspaceContext,
    WorkspaceContextView,
};
use crate::error::{outcome, RazeError, RazeErrorView};
use crate::metadata::{
    BinaryDepFiles, BinaryDepFilesView, BinaryDependencyInfo, BinaryDependencyInfoView,
    CargoWorkspaceFiles, CargoWorkspaceFilesView, Metadata, MetadataView,
};
use crate::paths::{FilePath, PathPartView};
use crate::planning::crate_catalog::{missing_resolve, CrateCatalog};
use crate::planning::facts::{WorkspaceFacts, WorkspaceFactsView};
use crate::planning::workspace_subplanner::{
    all_deps_in_order, WorkspaceSubplanner, WorkspaceSubplannerView,
};
use crate::platform::{PlatformDetails, PlatformDetailsView};
use crate::settings::{
    BinaryDependency, BinaryDependencyView, GenMode, RazeSettings, RazeSettingsView,
};
use crate::table::Table;
use crate::text::Text;

verus! {

/// A planned build, with the context of each crate.
#[derive(Debug, PartialEq, Eq)]
pub struct PlannedBuild {
    /// The context of the workspace.
    pub workspace_context: WorkspaceContext,
    /// The crates to build.
    pub crate_contexts: Vec<CrateContext>,
    /// The aliases that are defined at the root.
    pub workspace_aliases: Vec<DependencyAlias>,
    /// The files of the crates that are wanted for their binaries.
    pub binary_crate_files: Table<BinaryDepFiles>,
}

/// What a [`PlannedBuild`] holds.
#[verifier::ext_equal]
pub struct PlannedBuildView {
    pub workspace_context: WorkspaceContextView,
    pub crate_contexts: Seq<CrateContextView>,
    pub workspace_aliases: Seq<DependencyAliasView>,
    pub binary_crate_files: Seq<BinaryDepFilesView>,
}

impl DeepView for PlannedBuild {
    type V = PlannedBuildView;

    open spec fn deep_view(&self) -> PlannedBuildView {
        PlannedBuildView {
            workspace_context: self.workspace_context.deep_view(),
            crate_contexts: self.crate_contexts.deep_view(),
            workspace_aliases: self.workspace_aliases.deep_view(),
            binary_crate_files: self.binary_crate_files.deep_view(),
        }
    }
}

/// Something that can plan a build.
pub trait BuildPlanner {
    /// Whether enough is known to plan a build, or to tell why there is none.
    spec fn can_plan(
        &self,
        settings: RazeSettingsView,
        path_prefix: Seq<PathPartView>,
        files: CargoWorkspaceFilesView,
        platform_details: Option<PlatformDetailsView>,
    ) -> bool;

    /// Plans a build from what the planner knows of the workspace, its settings, its files, and the
    /// target to plan for.
    fn plan_build(
        &mut self,
        settings: &RazeSettings,
        path_prefix: &FilePath,
        files: CargoWorkspaceFiles,
        platform_details: Option<PlatformDetails>,
    ) -> Result<PlannedBuild, RazeError>
        requires
            old(self).can_plan(
                settings.deep_view(),
                path_prefix.deep_view(),
                files.deep_view(),
                platform_details.deep_view(),
            ),
    ;
}

/// What has to be gathered of the crates that are wanted for their binaries.
#[derive(Debug, PartialEq, Eq)]
pub struct BinaryDepsRequest {
    pub binary_deps: Table<BinaryDependency>,
    /// The registry that the crates are fetched from.
    pub registry: String,
    /// The directory of their lock files.
    pub lockfiles: FilePath,
    /// The directory that they are fetched into.
    pub tempdir: FilePath,
}

/// What a [`BinaryDepsRequest`] holds.
#[verifier::ext_equal]
pub struct BinaryDepsRequestView {
    pub binary_deps: Seq<BinaryDependencyView>,
    pub registry: Text,
    pub lockfiles: Seq<PathPartView>,
    pub tempdir: Seq<PathPartView>,
}

impl DeepView for BinaryDepsRequest {
    type V = BinaryDepsRequestView;

    open spec fn deep_view(&self) -> BinaryDepsRequestView {
        BinaryDepsRequestView {
            binary_deps: self.binary_deps.deep_view(),
            registry: self.registry@,
            lockfiles: self.lockfiles.deep_view(),
            tempdir: self.tempdir.deep_view(),
        }
    }
}

/// What was fetched, or why it was not.
pub open spec fn fetched<T: DeepView>(r: Result<T, String>) -> Result<T::V, Text> {
    match r {
        Ok(value) => Ok(value.deep_view()),
        Err(message) => Err(message@),
    }
}

/// What has to be gathered of the crates that are wanted for their binaries. Where Bazel does not
/// fetch the sources, that is nothing.
pub open spec fn wanted_binary_deps(
    settings: RazeSettingsView,
    path_prefix: Seq<PathPartView>,
    tempdir: Result<Seq<PathPartView>, Text>,
) -> Result<Option<BinaryDepsRequestView>, RazeErrorView> {
    if settings.genmode != GenMode::Remote {
        Ok(None)
    } else {
        match tempdir {
            Err(message) => Err(RazeErrorView::Generic(message)),
            Ok(tempdir) => Ok(
                Some(
                    BinaryDepsRequestView {
                        binary_deps: settings.binary_deps,
                        registry: settings.registry,
                        lockfiles: path_prefix.push(PathPartView::Name("lockfiles"@)),
                        tempdir,
                    },
                ),
            ),
        }
    }
}

/// Tells what has to be gathered of the crates that are wanted for their binaries.
pub fn binary_deps_request(
    settings: &RazeSettings,
    path_prefix: &FilePath,
    tempdir: &Result<FilePath, String>,
) -> (r: Result<Option<BinaryDepsRequest>, RazeError>)
    ensures
        outcome(r) == wanted_binary_deps(
            settings.deep_view(),
            path_prefix.deep_view(),
            fetched(*tempdir),
        ),
{
    if settings.genmode != GenMode::Remote {
        return Ok(None);
    }
    match tempdir {
        Ok(tempdir) => {
            Ok(
                Some(
                    BinaryDepsRequest {
                        binary_deps: settings.binary_deps.clone(),
                        registry: settings.registry.clone(),
                        lockfiles: path_prefix.join("lockfiles"),
                        tempdir: tempdir.clone(),
                    },
                ),
            )
        },
        Err(message) => Err(RazeError::Generic(message.clone())),
    }
}

/// Plans builds from what was fetched for it.
pub struct BuildPlannerImpl {
    /// What Cargo says of the workspace.
    pub metadata: Result<Metadata, String>,
    /// The directory for the crates that are wanted for their binaries.
    pub binary_deps_tempdir: Result<FilePath, String>,
    /// What was gathered of these crates.
    pub binary_dep_info: Result<BinaryDependencyInfo, String>,
    pub facts: WorkspaceFacts,
}

/// What a [`BuildPlannerImpl`] holds.
pub struct BuildPlannerImplView {
    pub metadata: Result<MetadataView, Text>,
    pub binary_deps_tempdir: Result<Seq<PathPartView>, Text>,
    pub binary_dep_info: Result<BinaryDependencyInfoView, Text>,
    pub facts: WorkspaceFactsView,
}

impl DeepView for BuildPlannerImpl {
    type V = BuildPlannerImplView;

    open spec fn deep_view(&self) -> BuildPlannerImplView {
        BuildPlannerImplView {
            metadata: fetched(self.metadata),
            binary_deps_tempdir: fetched(self.binary_deps_tempdir),
            binary_dep_info: fetched(self.binary_dep_info),
            facts: self.facts.deep_view(),
        }
    }
}

/// Whether each of these has a dependency graph.
pub open spec fn all_resolved(metadata: Seq<MetadataView>) -> bool {
    forall|i: int| 0 <= i < metadata.len() ==> (#[trigger] metadata[i]).resolve is Some
}

impl BuildPlannerImplView {
    /// What the plan takes from the crates that are wanted for their binaries. Where Bazel does not
    /// fetch the sources, that is nothing.
    pub open spec fn binary_info(
        self,
        settings: RazeSettingsView,
        path_prefix: Seq<PathPartView>,
    ) -> Result<BinaryDependencyInfoView, RazeErrorView> {
        match wanted_binary_deps(settings, path_prefix, self.binary_deps_tempdir) {
            Err(error) => Err(error),
            Ok(None) => Ok(
                BinaryDependencyInfoView { metadata: Seq::empty(), files: Seq::empty() },
            ),
            Ok(Some(_)) => match self.binary_dep_info {
                Err(message) => Err(RazeErrorView::Generic(message)),
                Ok(info) => Ok(info),
            },
        }
    }

    /// The planner of the workspace, which knows what was fetched.
    pub open spec fn subplanner(
        self,
        settings: RazeSettingsView,
        path_prefix: Seq<PathPartView>,
        files: CargoWorkspaceFilesView,
        platform_details: Option<PlatformDetailsView>,
    ) -> Result<WorkspaceSubplannerView, RazeErrorView> {
        match self.metadata {
            Err(message) => Err(RazeErrorView::Generic(message)),
            Ok(metadata) => if metadata.resolve is None {
                Err(missing_resolve())
            } else {
                match self.binary_info(settings, path_prefix) {
                    Err(error) => Err(error),
                    Ok(info) => if !all_resolved(info.metadata) {
                        Err(missing_resolve())
                    } else {
                        Ok(
                            WorkspaceSubplannerView {
                                settings,
                                platform_details,
                                facts: self.facts,
                                catalog: metadata,
                                files,
                                binary_dependencies: info.metadata,
                                binary_deps_files: info.files,
                            },
                        )
                    },
                }
            },
        }
    }

    /// The planned build.
    pub open spec fn plan(
        self,
        settings: RazeSettingsView,
        path_prefix: Seq<PathPartView>,
        files: CargoWorkspaceFilesView,
        platform_details: Option<PlatformDetailsView>,
    ) -> Result<PlannedBuildView, RazeErrorView> {
        match self.subplanner(settings, path_prefix, files, platform_details) {
            Err(error) => Err(error),
            Ok(subplanner) => subplanner.planned_build(),
        }
    }

    /// Whether enough is known to plan the crates, unless planning fails before.
    pub open spec fn is_plannable(
        self,
        settings: RazeSettingsView,
        path_prefix: Seq<PathPartView>,
        files: CargoWorkspaceFilesView,
        platform_details: Option<PlatformDetailsView>,
    ) -> bool {
        self.subplanner(settings, path_prefix, files, platform_details) matches Ok(subplanner) ==> (
        subplanner.checks() is Ok ==> subplanner.is_plannable())
    }

    /// The crates that settings are for and that no package is, unless planning fails before.
    pub open spec fn unused_settings(
        self,
        settings: RazeSettingsView,
        path_prefix: Seq<PathPartView>,
        files: CargoWorkspaceFilesView,
        platform_details: Option<PlatformDetailsView>,
    ) -> Seq<Text> {
        match self.subplanner(settings, path_prefix, files, platform_details) {
            Err(_) => Seq::empty(),
            Ok(subplanner) => subplanner.unused_settings(),
        }
    }
}

impl BuildPlannerImpl {
    /// A planner that knows what was fetched.
    pub fn new(
        metadata: Result<Metadata, String>,
        binary_deps_tempdir: Result<FilePath, String>,
        binary_dep_info: Result<BinaryDependencyInfo, String>,
        facts: WorkspaceFacts,
    ) -> (r: BuildPlannerImpl)
        ensures
            r.deep_view() == (BuildPlannerImplView {
                metadata: fetched(metadata),
                binary_deps_tempdir: fetched(binary_deps_tempdir),
                binary_dep_info: fetched(binary_dep_info),
                facts: facts.deep_view(),
            }),
    {
        BuildPlannerImpl { metadata, binary_deps_tempdir, binary_dep_info, facts }
    }
}

/// Makes the catalog of each of `metadata`. Fails if one has no dependency graph.
fn catalogs_of<'m>(metadata: &'m Vec<Metadata>) -> (r: Result<Vec<CrateCatalog<'m>>, RazeError>)
    ensures
        outcome(r) == (if all_resolved(metadata.deep_view()) {
            Ok(metadata.deep_view())
        } else {
            Err(missing_resolve())
        }),
{
    let ghost all = metadata.deep_view();
    let mut catalogs: Vec<CrateCatalog<'m>> = Vec::new();
    let mut i: usize = 0;
    assert(catalogs.deep_view() =~= all.take(0));
    while i < metadata.len()
        invariant
            all == metadata.deep_view(),
            i <= metadata.len(),
            catalogs.deep_view() == all.take(i as int),
            forall|j: int| 0 <= j < i ==> (#[trigger] all[j]).resolve is Some,
        decreases metadata.len() - i,
    {
        let ghost before = catalogs.deep_view();
        assert(all[i as int] == metadata@[i as int].deep_view());
        match CrateCatalog::new(&metadata[i]) {
            Ok(catalog) => {
                catalogs.push(catalog);
                assert(catalogs.deep_view() =~= before.push(all[i as int]));
                assert(all.take(i + 1) =~= before.push(all[i as int]));
            },
            Err(error) => {
                return Err(error);
            },
        }
        i = i + 1;
    }
    assert(all.take(i as int) =~= all);
    Ok(catalogs)
}

/// What planning takes from what was fetched.
struct Gathered<'m> {
    catalog: CrateCatalog<'m>,
    binary_catalogs: Vec<CrateCatalog<'m>>,
    binary_files: Table<BinaryDepFiles>,
}

impl BuildPlannerImpl {
    /// Puts together what planning takes from what was fetched.
    fn gather(&self, settings: &RazeSettings, path_prefix: &FilePath) -> (r: Result<
        Gathered<'_>,
        RazeError,
    >)
        ensures
            forall|
                files: CargoWorkspaceFilesView,
                platform_details: Option<PlatformDetailsView>,
            | #[trigger]
                self.deep_view().subplanner(
                    settings.deep_view(),
                    path_prefix.deep_view(),
                    files,
                    platform_details,
                ) == (match r {
                    Err(error) => Err(error.deep_view()),
                    Ok(gathered) => Ok(
                        WorkspaceSubplannerView {
                            settings: settings.deep_view(),
                            platform_details,
                            facts: self.deep_view().facts,
                            catalog: gathered.catalog.deep_view(),
                            files,
                            binary_dependencies: gathered.binary_catalogs.deep_view(),
                            binary_deps_files: gathered.binary_files.deep_view(),
                        },
                    ),
                }),
    {
        let metadata = match &self.metadata {
            Ok(metadata) => metadata,
            Err(message) => {
                return Err(RazeError::Generic(message.clone()));
            },
        };
        let catalog = match CrateCatalog::new(metadata) {
            Ok(catalog) => catalog,
            Err(error) => {
                return Err(error);
            },
        };
        let info = match binary_deps_request(settings, path_prefix, &self.binary_deps_tempdir) {
            Ok(Some(_)) => match &self.binary_dep_info {
                Ok(info) => info,
                Err(message) => {
                    return Err(RazeError::Generic(message.clone()));
                },
            },
            Ok(None) => {
                let binary_catalogs: Vec<CrateCatalog<'_>> = Vec::new();
                let none: Vec<BinaryDepFiles> = Vec::new();
                assert(binary_catalogs.deep_view() =~= Seq::empty());
                assert(none.deep_view() =~= Seq::empty());
                return Ok(
                    Gathered { catalog, binary_catalogs, binary_files: Table::from_items(none) },
                );
            },
            Err(error) => {
                return Err(error);
            },
        };
        let binary_catalogs = match catalogs_of(&info.metadata) {
            Ok(catalogs) => catalogs,
            Err(error) => {
                return Err(error);
            },
        };
        Ok(Gathered { catalog, binary_catalogs, binary_files: info.files.clone() })
    }

    /// Whether [`BuildPlanner::plan_build`] can be asked: enough is known to plan the crates, unless
    /// planning fails before.
    pub fn is_plannable(
        &self,
        settings: &RazeSettings,
        path_prefix: &FilePath,
        files: &CargoWorkspaceFiles,
        platform_details: &Option<PlatformDetails>,
    ) -> (r: bool)
        ensures
            r == self.can_plan(
                settings.deep_view(),
                path_prefix.deep_view(),
                files.deep_view(),
                platform_details.deep_view(),
            ),
    {
        let gathered = match self.gather(settings, path_prefix) {
            Ok(gathered) => gathered,
            Err(_) => {
                return true;
            },
        };
        let subplanner = WorkspaceSubplanner {
            settings,
            platform_details,
            facts: &self.facts,
            crate_catalog: &gathered.catalog,
            files,
            binary_dependencies: &gathered.binary_catalogs,
            binary_deps_files: &gathered.binary_files,
        };
        match subplanner.check() {
            Ok(()) => subplanner.is_plannable(),
            Err(_) => true,
        }
    }

    /// The crates that settings are for and that no package is: such settings are of no use, and worth
    /// a warning. None where planning fails before.
    pub fn unused_settings(
        &self,
        settings: &RazeSettings,
        path_prefix: &FilePath,
        files: &CargoWorkspaceFiles,
        platform_details: &Option<PlatformDetails>,
    ) -> (r: Vec<String>)
        ensures
            r.deep_view() == self.deep_view().unused_settings(
                settings.deep_view(),
                path_prefix.deep_view(),
                files.deep_view(),
                platform_details.deep_view(),
            ),
    {
        let gathered = match self.gather(settings, path_prefix) {
            Ok(gathered) => gathered,
            Err(_) => {
                let none: Vec<String> = Vec::new();
                assert(none.deep_view() =~= Seq::empty());
                return none;
            },
        };
        let subplanner = WorkspaceSubplanner {
            settings,
            platform_details,
            facts: &self.facts,
            crate_catalog: &gathered.catalog,
            files,
            binary_dependencies: &gathered.binary_catalogs,
            binary_deps_files: &gathered.binary_files,
        };
        subplanner.unused_settings()
    }
}

impl BuildPlanner for BuildPlannerImpl {
    open spec fn can_plan(
        &self,
        settings: RazeSettingsView,
        path_prefix: Seq<PathPartView>,
        files: CargoWorkspaceFilesView,
        platform_details: Option<PlatformDetailsView>,
    ) -> bool {
        self.deep_view().is_plannable(settings, path_prefix, files, platform_details)
    }

    /// Plans a build from what was fetched.
    fn plan_build(
        &mut self,
        settings: &RazeSettings,
        path_prefix: &FilePath,
        files: CargoWorkspaceFiles,
        platform_details: Option<PlatformDetails>,
    ) -> (r: Result<PlannedBuild, RazeError>)
        ensures
            outcome(r) == old(self).deep_view().plan(
                settings.deep_view(),
                path_prefix.deep_view(),
                files.deep_view(),
                platform_details.deep_view(),
            ),
            r matches Ok(planned) ==> all_deps_in_order(planned.deep_view().crate_contexts),
            *final(self) == *old(self),
    {
        let gathered = match self.gather(settings, path_prefix) {
            Ok(gathered) => gathered,
            Err(error) => {
                return Err(error);
            },
        };
        let workspace_subplanner = WorkspaceSubplanner {
            settings,
            platform_details: &platform_details,
            facts: &self.facts,
            crate_catalog: &gathered.catalog,
            files: &files,
            binary_dependencies: &gathered.binary_catalogs,
            binary_deps_files: &gathered.binary_files,
        };
        workspace_subplanner.produce_planned_build()
    }
}

impl BuildPlannerImpl {
    /// Plans a build from what was fetched, if enough is known to plan it.
    pub fn plan_build_if_known(
        &mut self,
        settings: &RazeSettings,
        path_prefix: &FilePath,
        files: CargoWorkspaceFiles,
        platform_details: Option<PlatformDetails>,
    ) -> (r: Option<Result<PlannedBuild, RazeError>>)
        ensures
            r is Some <==> old(self).can_plan(
                settings.deep_view(),
                path_prefix.deep_view(),
                files.deep_view(),
                platform_details.deep_view(),
            ),
            r matches Some(planned) ==> outcome(planned) == old(self).deep_view().plan(
                settings.deep_view(),
                path_prefix.deep_view(),
                files.deep_view(),
                platform_details.deep_view(),
            ),
            *final(self) == *old(self),
    {
        if self.is_plannable(settings, path_prefix, &files, &platform_details) {
            Some(self.plan_build(settings, path_prefix, files, platform_details))
        } else {
            None
        }
    }
}

} // verus!
