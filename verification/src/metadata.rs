//! What Cargo says of a workspace.

use vstd::prelude::*;

use crate::paths::{WrittenPath, WrittenPathView};
use crate::platform::WrittenPlatform;
use crate::source::{Source, SourceView};
use crate::table::{Keyed, Table};
use crate::text::{copy_optional_text, copy_texts, Text};
use crate::version::{Version, VersionReq};

verus! {

/// What a dependency is needed for.
#[derive(Debug, Clone, Copy, PartialEq, Eq, Structural)]
pub enum DependencyKind {
    /// The crate itself.
    Normal,
    /// Its tests, examples and benchmarks.
    Development,
    /// Its build script.
    Build,
    /// Something else.
    Unknown,
}

/// A dependency as a manifest declares it.
#[derive(Debug, PartialEq, Eq)]
pub struct Dependency {
    pub name: String,
    pub source: Option<String>,
    pub req: VersionReq,
    /// The name that the manifest gives it, if that is another one.
    pub rename: Option<String>,
}

/// What a [`Dependency`] holds.
#[verifier::ext_equal]
pub struct DependencyView {
    pub name: Text,
    pub source: Option<Text>,
    pub req: Text,
    pub rename: Option<Text>,
}

impl DeepView for Dependency {
    type V = DependencyView;

    open spec fn deep_view(&self) -> DependencyView {
        DependencyView {
            name: self.name.deep_view(),
            source: self.source.deep_view(),
            req: self.req.deep_view(),
            rename: self.rename.deep_view(),
        }
    }
}

impl Clone for Dependency {
    fn clone(&self) -> (r: Self)
        ensures
            r.deep_view() == self.deep_view(),
    {
        Dependency {
            name: self.name.clone(),
            source: copy_optional_text(&self.source),
            req: self.req.clone(),
            rename: copy_optional_text(&self.rename),
        }
    }
}

/// Something that a package can be built into.
#[derive(Debug, PartialEq, Eq)]
pub struct Target {
    pub name: String,
    pub kind: Vec<String>,
    pub crate_types: Vec<String>,
    pub src_path: WrittenPath,
    pub edition: String,
}

/// What a [`Target`] holds.
#[verifier::ext_equal]
pub struct TargetView {
    pub name: Text,
    pub kind: Seq<Text>,
    pub crate_types: Seq<Text>,
    pub src_path: WrittenPathView,
    pub edition: Text,
}

impl DeepView for Target {
    type V = TargetView;

    open spec fn deep_view(&self) -> TargetView {
        TargetView {
            name: self.name.deep_view(),
            kind: self.kind.deep_view(),
            crate_types: self.crate_types.deep_view(),
            src_path: self.src_path.deep_view(),
            edition: self.edition.deep_view(),
        }
    }
}

impl Clone for Target {
    fn clone(&self) -> (r: Self)
        ensures
            r.deep_view() == self.deep_view(),
    {
        Target {
            name: self.name.clone(),
            kind: copy_texts(&self.kind),
            crate_types: copy_texts(&self.crate_types),
            src_path: self.src_path.clone(),
            edition: self.edition.clone(),
        }
    }
}

/// A package.
#[derive(Debug, PartialEq, Eq)]
pub struct Package {
    pub name: String,
    pub version: Version,
    /// What the package is referred to by.
    pub id: String,
    pub license: Option<String>,
    /// Where it comes from, unless it is a local package.
    pub source: Option<Source>,
    pub dependencies: Vec<Dependency>,
    pub targets: Vec<Target>,
    pub manifest_path: WrittenPath,
    pub edition: String,
}

/// What a [`Package`] holds.
#[verifier::ext_equal]
pub struct PackageView {
    pub name: Text,
    pub version: Text,
    pub id: Text,
    pub license: Option<Text>,
    pub source: Option<SourceView>,
    pub dependencies: Seq<DependencyView>,
    pub targets: Seq<TargetView>,
    pub manifest_path: WrittenPathView,
    pub edition: Text,
}

impl DeepView for Package {
    type V = PackageView;

    open spec fn deep_view(&self) -> PackageView {
        PackageView {
            name: self.name.deep_view(),
            version: self.version.deep_view(),
            id: self.id.deep_view(),
            license: self.license.deep_view(),
            source: self.source.deep_view(),
            dependencies: self.dependencies.deep_view(),
            targets: self.targets.deep_view(),
            manifest_path: self.manifest_path.deep_view(),
            edition: self.edition.deep_view(),
        }
    }
}

impl Clone for Package {
    fn clone(&self) -> (r: Self)
        ensures
            r.deep_view() == self.deep_view(),
    {
        let dependencies = self.dependencies.clone();
        assert(dependencies.deep_view() =~= self.dependencies.deep_view());
        let targets = self.targets.clone();
        assert(targets.deep_view() =~= self.targets.deep_view());
        Package {
            name: self.name.clone(),
            version: self.version.clone(),
            id: self.id.clone(),
            license: copy_optional_text(&self.license),
            source: self.source.clone(),
            dependencies,
            targets,
            manifest_path: self.manifest_path.clone(),
            edition: self.edition.clone(),
        }
    }
}

/// One use of a dependency.
#[derive(Debug, PartialEq, Eq)]
pub struct DepKindInfo {
    pub kind: DependencyKind,
    /// The platform that it is for, unless it is for all.
    pub target: Option<WrittenPlatform>,
}

/// What a [`DepKindInfo`] holds.
#[verifier::ext_equal]
pub struct DepKindInfoView {
    pub kind: DependencyKind,
    /// What is written for the platform.
    pub target: Option<Text>,
    /// Whether the platform can be read, if it is for one.
    pub target_reads: bool,
}

impl DeepView for DepKindInfo {
    type V = DepKindInfoView;

    open spec fn deep_view(&self) -> DepKindInfoView {
        DepKindInfoView {
            kind: self.kind,
            target: match self.target {
                Some(platform) => Some(platform.deep_view().repr),
                None => None,
            },
            target_reads: match self.target {
                Some(platform) => platform.deep_view().reads,
                None => true,
            },
        }
    }
}

impl Clone for DepKindInfo {
    fn clone(&self) -> (r: Self)
        ensures
            r.deep_view() == self.deep_view(),
    {
        DepKindInfo {
            kind: self.kind,
            target: match &self.target {
                Some(platform) => Some(platform.clone()),
                None => None,
            },
        }
    }
}

/// A dependency of a package, resolved.
#[derive(Debug, PartialEq, Eq)]
pub struct NodeDep {
    /// The name by which the package refers to it.
    pub name: String,
    /// The dependency's package.
    pub pkg: String,
    pub dep_kinds: Vec<DepKindInfo>,
}

/// What a [`NodeDep`] holds.
#[verifier::ext_equal]
pub struct NodeDepView {
    pub name: Text,
    pub pkg: Text,
    pub dep_kinds: Seq<DepKindInfoView>,
}

impl DeepView for NodeDep {
    type V = NodeDepView;

    open spec fn deep_view(&self) -> NodeDepView {
        NodeDepView {
            name: self.name.deep_view(),
            pkg: self.pkg.deep_view(),
            dep_kinds: self.dep_kinds.deep_view(),
        }
    }
}

impl Clone for NodeDep {
    fn clone(&self) -> (r: Self)
        ensures
            r.deep_view() == self.deep_view(),
    {
        let dep_kinds = self.dep_kinds.clone();
        assert(dep_kinds.deep_view() =~= self.dep_kinds.deep_view());
        NodeDep {
            name: self.name.clone(),
            pkg: self.pkg.clone(),
            dep_kinds,
        }
    }
}

/// A package and its dependencies, resolved.
#[derive(Debug, PartialEq, Eq)]
pub struct Node {
    pub id: String,
    pub deps: Vec<NodeDep>,
    /// The packages that it depends on.
    pub dependencies: Vec<String>,
    pub features: Vec<String>,
}

/// What a [`Node`] holds.
#[verifier::ext_equal]
pub struct NodeView {
    pub id: Text,
    pub deps: Seq<NodeDepView>,
    pub dependencies: Seq<Text>,
    pub features: Seq<Text>,
}

impl DeepView for Node {
    type V = NodeView;

    open spec fn deep_view(&self) -> NodeView {
        NodeView {
            id: self.id.deep_view(),
            deps: self.deps.deep_view(),
            dependencies: self.dependencies.deep_view(),
            features: self.features.deep_view(),
        }
    }
}

impl Clone for Node {
    fn clone(&self) -> (r: Self)
        ensures
            r.deep_view() == self.deep_view(),
    {
        let deps = self.deps.clone();
        assert(deps.deep_view() =~= self.deps.deep_view());
        Node {
            id: self.id.clone(),
            deps,
            dependencies: copy_texts(&self.dependencies),
            features: copy_texts(&self.features),
        }
    }
}

/// A dependency graph.
#[derive(Debug, PartialEq, Eq)]
pub struct Resolve {
    pub nodes: Vec<Node>,
    /// The package that the graph is that of.
    pub root: Option<String>,
}

/// What a [`Resolve`] holds.
#[verifier::ext_equal]
pub struct ResolveView {
    pub nodes: Seq<NodeView>,
    pub root: Option<Text>,
}

impl DeepView for Resolve {
    type V = ResolveView;

    open spec fn deep_view(&self) -> ResolveView {
        ResolveView { nodes: self.nodes.deep_view(), root: self.root.deep_view() }
    }
}

impl Clone for Resolve {
    fn clone(&self) -> (r: Self)
        ensures
            r.deep_view() == self.deep_view(),
    {
        let nodes = self.nodes.clone();
        assert(nodes.deep_view() =~= self.nodes.deep_view());
        Resolve { nodes, root: copy_optional_text(&self.root) }
    }
}

/// What Cargo says of a workspace.
#[derive(Debug, PartialEq, Eq)]
pub struct Metadata {
    pub packages: Vec<Package>,
    /// The packages of the workspace itself.
    pub workspace_members: Vec<String>,
    pub resolve: Option<Resolve>,
}

/// What a [`Metadata`] holds.
#[verifier::ext_equal]
pub struct MetadataView {
    pub packages: Seq<PackageView>,
    pub workspace_members: Seq<Text>,
    pub resolve: Option<ResolveView>,
}

impl DeepView for Metadata {
    type V = MetadataView;

    open spec fn deep_view(&self) -> MetadataView {
        MetadataView {
            packages: self.packages.deep_view(),
            workspace_members: self.workspace_members.deep_view(),
            resolve: self.resolve.deep_view(),
        }
    }
}

impl Clone for Metadata {
    fn clone(&self) -> (r: Self)
        ensures
            r.deep_view() == self.deep_view(),
    {
        let packages = self.packages.clone();
        assert(packages.deep_view() =~= self.packages.deep_view());
        Metadata {
            packages,
            workspace_members: copy_texts(&self.workspace_members),
            resolve: self.resolve.clone(),
        }
    }
}

/// A package in a lockfile.
#[derive(Debug, PartialEq, Eq)]
pub struct LockedPackage {
    pub name: String,
    pub version: String,
    pub checksum: Option<String>,
}

/// What a [`LockedPackage`] holds.
#[verifier::ext_equal]
pub struct LockedPackageView {
    pub name: Text,
    pub version: Text,
    pub checksum: Option<Text>,
}

impl DeepView for LockedPackage {
    type V = LockedPackageView;

    open spec fn deep_view(&self) -> LockedPackageView {
        LockedPackageView {
            name: self.name.deep_view(),
            version: self.version.deep_view(),
            checksum: self.checksum.deep_view(),
        }
    }
}

impl Clone for LockedPackage {
    fn clone(&self) -> (r: Self)
        ensures
            r.deep_view() == self.deep_view(),
    {
        LockedPackage {
            name: self.name.clone(),
            version: self.version.clone(),
            checksum: copy_optional_text(&self.checksum),
        }
    }
}

/// A lockfile, and what came of loading it.
#[derive(Debug, PartialEq, Eq)]
pub struct LockFile {
    pub path: String,
    /// The packages in it, or why it could not be loaded.
    pub packages: Result<Vec<LockedPackage>, String>,
}

/// What a [`LockFile`] holds.
pub struct LockFileView {
    pub path: Text,
    pub packages: Result<Seq<LockedPackageView>, Text>,
}

impl DeepView for LockFile {
    type V = LockFileView;

    open spec fn deep_view(&self) -> LockFileView {
        LockFileView {
            path: self.path@,
            packages: match self.packages {
                Ok(packages) => Ok(packages.deep_view()),
                Err(reason) => Err(reason@),
            },
        }
    }
}

impl Clone for LockFile {
    fn clone(&self) -> (r: Self)
        ensures
            r.deep_view() == self.deep_view(),
    {
        let packages = match &self.packages {
            Ok(packages) => {
                let copy = packages.clone();
                assert(copy.deep_view() =~= packages.deep_view());
                Ok(copy)
            },
            Err(reason) => Err(reason.clone()),
        };
        LockFile { path: self.path.clone(), packages }
    }
}

/// The files of a workspace.
#[derive(Debug, PartialEq, Eq)]
pub struct CargoWorkspaceFiles {
    pub toml_path: String,
    pub lock_file_opt: Option<LockFile>,
}

/// What a [`CargoWorkspaceFiles`] holds.
#[verifier::ext_equal]
pub struct CargoWorkspaceFilesView {
    pub toml_path: Text,
    pub lock_file_opt: Option<LockFileView>,
}

impl DeepView for CargoWorkspaceFiles {
    type V = CargoWorkspaceFilesView;

    open spec fn deep_view(&self) -> CargoWorkspaceFilesView {
        CargoWorkspaceFilesView {
            toml_path: self.toml_path.deep_view(),
            lock_file_opt: self.lock_file_opt.deep_view(),
        }
    }
}

impl Clone for CargoWorkspaceFiles {
    fn clone(&self) -> (r: Self)
        ensures
            r.deep_view() == self.deep_view(),
    {
        CargoWorkspaceFiles {
            toml_path: self.toml_path.clone(),
            lock_file_opt: self.lock_file_opt.clone(),
        }
    }
}

/// The files of a crate that is wanted for its binaries.
#[derive(Debug, PartialEq, Eq)]
pub struct BinaryDepFiles {
    pub name: String,
    pub files: CargoWorkspaceFiles,
}

/// What a [`BinaryDepFiles`] holds.
#[verifier::ext_equal]
pub struct BinaryDepFilesView {
    pub name: Text,
    pub files: CargoWorkspaceFilesView,
}

impl DeepView for BinaryDepFiles {
    type V = BinaryDepFilesView;

    open spec fn deep_view(&self) -> BinaryDepFilesView {
        BinaryDepFilesView {
            name: self.name.deep_view(),
            files: self.files.deep_view(),
        }
    }
}

impl Clone for BinaryDepFiles {
    fn clone(&self) -> (r: Self)
        ensures
            r.deep_view() == self.deep_view(),
    {
        BinaryDepFiles {
            name: self.name.clone(),
            files: self.files.clone(),
        }
    }
}

impl Keyed for BinaryDepFiles {
    /// The name of the crate.
    open spec fn key_of(item: BinaryDepFilesView) -> Text {
        item.name
    }

    fn key(&self) -> (r: String) {
        self.name.clone()
    }

    fn copy(&self) -> (r: Self) {
        self.clone()
    }
}

/// What was gathered of the crates that are wanted for their binaries.
#[derive(Debug, PartialEq, Eq)]
pub struct BinaryDependencyInfo {
    /// What Cargo says of each.
    pub metadata: Vec<Metadata>,
    pub files: Table<BinaryDepFiles>,
}

/// What a [`BinaryDependencyInfo`] holds.
#[verifier::ext_equal]
pub struct BinaryDependencyInfoView {
    pub metadata: Seq<MetadataView>,
    pub files: Seq<BinaryDepFilesView>,
}

impl DeepView for BinaryDependencyInfo {
    type V = BinaryDependencyInfoView;

    open spec fn deep_view(&self) -> BinaryDependencyInfoView {
        BinaryDependencyInfoView {
            metadata: self.metadata.deep_view(),
            files: self.files.deep_view(),
        }
    }
}

impl Clone for BinaryDependencyInfo {
    fn clone(&self) -> (r: Self)
        ensures
            r.deep_view() == self.deep_view(),
    {
        let metadata = self.metadata.clone();
        assert(metadata.deep_view() =~= self.metadata.deep_view());
        BinaryDependencyInfo { metadata, files: self.files.clone() }
    }
}

} // verus!
