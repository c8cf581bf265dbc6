//! The packages of a workspace and of what it depends on.

use vstd::prelude::*;

use crate::error::{outcome, RazeError, RazeErrorView};
use crate::metadata::{Metadata, MetadataView, Package, PackageView, ResolveView};
use crate::settings::{GenMode, RazeSettings, RazeSettingsView};
use crate::text::{contains_text, ends_with, same_text, sanitize_ident, sanitized, Text};

verus! {

/// A package, and what it is to the workspace.
pub struct CrateCatalogEntry<'m> {
    package: &'m Package,
    is_root: bool,
    is_root_dep: bool,
    is_workspace_crate: bool,
}

/// What a [`CrateCatalogEntry`] holds.
#[verifier::ext_equal]
pub struct CrateCatalogEntryView {
    pub package: PackageView,
    /// The package is the root of the dependency graph.
    pub is_root: bool,
    /// The root depends on it.
    pub is_root_dep: bool,
    /// It belongs to the workspace.
    pub is_workspace_crate: bool,
}

impl<'m> DeepView for CrateCatalogEntry<'m> {
    type V = CrateCatalogEntryView;

    closed spec fn deep_view(&self) -> CrateCatalogEntryView {
        CrateCatalogEntryView {
            package: self.package.deep_view(),
            is_root: self.is_root,
            is_root_dep: self.is_root_dep,
            is_workspace_crate: self.is_workspace_crate,
        }
    }
}

/// The package as a whole: `name-version`.
pub open spec fn package_ident(package: PackageView) -> Text {
    package.name + "-"@ + package.version
}

/// The name of the repository that holds a package which Bazel fetches.
pub open spec fn repository_name(prefix: Text, package: PackageView) -> Text {
    prefix + "__"@ + sanitized(package.name) + "__"@ + sanitized(package.version)
}

/// The error where the settings leave open how sources get into the workspace.
pub open spec fn unspecified_genmode() -> RazeErrorView {
    RazeErrorView::Generic("Unable to determine the path of a crate. GenMode unspecified"@)
}

/// The workspace path, up to and with the slash behind it. That of the root has it already.
pub open spec fn workspace_directory(workspace_path: Text) -> Text {
    if "//"@.is_suffix_of(workspace_path) {
        workspace_path
    } else {
        workspace_path + "/"@
    }
}

/// Where in the Bazel workspace a package is.
pub open spec fn workspace_path_of(settings: RazeSettingsView, package: PackageView) -> Result<
    Text,
    RazeErrorView,
> {
    match settings.genmode {
        GenMode::Remote => Ok(
            "@"@ + repository_name(settings.gen_workspace_prefix, package) + "//"@,
        ),
        GenMode::Vendored => Ok(
            workspace_directory(settings.workspace_path) + "vendor/"@ + package_ident(package),
        ),
        GenMode::Unspecified => Err(unspecified_genmode()),
    }
}

/// The label of a package's default target.
pub open spec fn default_label_of(settings: RazeSettingsView, package: PackageView) -> Result<
    Text,
    RazeErrorView,
> {
    match workspace_path_of(settings, package) {
        Ok(path) => Ok(path + ":"@ + sanitized(package.name)),
        Err(error) => Err(error),
    }
}

/// Where the BUILD file of a package is.
pub open spec fn local_build_path_of(settings: RazeSettingsView, package: PackageView) -> Result<
    Text,
    RazeErrorView,
> {
    match settings.genmode {
        GenMode::Remote => Ok("remote/BUILD."@ + package_ident(package) + ".bazel"@),
        GenMode::Vendored => Ok(
            "vendor/"@ + package_ident(package) + "/"@ + settings.output_buildfile_suffix,
        ),
        GenMode::Unspecified => Err(unspecified_genmode()),
    }
}

/// `name-version` of a package.
pub fn ident_of(package: &Package) -> (r: String)
    ensures
        r@ == package_ident(package.deep_view()),
{
    package.name.clone().concat("-").concat(package.version.to_text().as_str())
}

fn genmode_error() -> (r: RazeError)
    ensures
        r.deep_view() == unspecified_genmode(),
{
    RazeError::Generic("Unable to determine the path of a crate. GenMode unspecified".to_owned())
}

impl<'m> CrateCatalogEntry<'m> {
    /// The package.
    pub fn package(&self) -> (r: &'m Package)
        ensures
            r.deep_view() == self.deep_view().package,
    {
        self.package
    }

    /// Whether the package is the root of the dependency graph.
    pub fn is_root(&self) -> (r: bool)
        ensures
            r == self.deep_view().is_root,
    {
        self.is_root
    }

    /// Whether the root depends on the package.
    pub fn is_root_dep(&self) -> (r: bool)
        ensures
            r == self.deep_view().is_root_dep,
    {
        self.is_root_dep
    }

    /// Whether the package belongs to the workspace.
    pub fn is_workspace_crate(&self) -> (r: bool)
        ensures
            r == self.deep_view().is_workspace_crate,
    {
        self.is_workspace_crate
    }

    /// Where in the Bazel workspace the package is.
    pub fn workspace_path(&self, settings: &RazeSettings) -> (r: Result<String, RazeError>)
        ensures
            outcome(r) == workspace_path_of(settings.deep_view(), self.deep_view().package),
    {
        match settings.genmode {
            GenMode::Remote => {
                let name = sanitize_ident(self.package.name.as_str());
                let version = sanitize_ident(self.package.version.to_text().as_str());
                let repository = settings.gen_workspace_prefix.clone().concat("__").concat(
                    name.as_str(),
                ).concat("__").concat(version.as_str());
                Ok("@".to_owned().concat(repository.as_str()).concat("//"))
            },
            GenMode::Vendored => {
                let ident = ident_of(self.package);
                let directory = if ends_with(settings.workspace_path.as_str(), "//") {
                    settings.workspace_path.clone()
                } else {
                    settings.workspace_path.clone().concat("/")
                };
                Ok(directory.concat("vendor/").concat(ident.as_str()))
            },
            GenMode::Unspecified => Err(genmode_error()),
        }
    }

    /// The label of the package's default target.
    pub fn workspace_path_and_default_target(&self, settings: &RazeSettings) -> (r: Result<
        String,
        RazeError,
    >)
        ensures
            outcome(r) == default_label_of(settings.deep_view(), self.deep_view().package),
    {
        match self.workspace_path(settings) {
            Ok(path) => {
                let name = sanitize_ident(self.package.name.as_str());
                Ok(path.concat(":").concat(name.as_str()))
            },
            Err(error) => Err(error),
        }
    }

    /// Where the BUILD file of the package is.
    pub fn local_build_path(&self, settings: &RazeSettings) -> (r: Result<String, RazeError>)
        ensures
            outcome(r) == local_build_path_of(settings.deep_view(), self.deep_view().package),
    {
        match settings.genmode {
            GenMode::Remote => {
                let ident = ident_of(self.package);
                Ok("remote/BUILD.".to_owned().concat(ident.as_str()).concat(".bazel"))
            },
            GenMode::Vendored => {
                let ident = ident_of(self.package);
                Ok(
                    "vendor/".to_owned().concat(ident.as_str()).concat("/").concat(
                        settings.output_buildfile_suffix.as_str(),
                    ),
                )
            },
            GenMode::Unspecified => Err(genmode_error()),
        }
    }
}

/// Whether the root of a graph depends on the package `id`.
pub open spec fn root_depends_on(resolve: ResolveView, id: Text) -> bool {
    exists|i: int|
        0 <= i < resolve.nodes.len() && resolve.root == Some((#[trigger] resolve.nodes[i]).id)
            && resolve.nodes[i].dependencies.contains(id)
}

/// What a package is to a workspace.
pub open spec fn catalog_entry(metadata: MetadataView, package: PackageView) -> CrateCatalogEntryView {
    CrateCatalogEntryView {
        package,
        is_root: metadata.resolve->Some_0.root == Some(package.id),
        is_root_dep: root_depends_on(metadata.resolve->Some_0, package.id),
        is_workspace_crate: metadata.workspace_members.contains(package.id),
    }
}

/// The packages of a workspace, each with what it is to it.
pub open spec fn catalog_entries(metadata: MetadataView) -> Seq<CrateCatalogEntryView> {
    metadata.packages.map_values(|package: PackageView| catalog_entry(metadata, package))
}

/// The error where there is no dependency graph.
pub open spec fn missing_resolve() -> RazeErrorView {
    RazeErrorView::Generic("Missing resolve graph"@)
}

/// That error.
pub fn missing_resolve_error() -> (r: RazeError)
    ensures
        r.deep_view() == missing_resolve(),
{
    RazeError::Generic("Missing resolve graph".to_owned())
}

/// The first entry for the package `id`.
pub open spec fn find_entry(entries: Seq<CrateCatalogEntryView>, id: Text) -> Option<
    CrateCatalogEntryView,
>
    decreases entries.len(),
{
    if entries.len() == 0 {
        None
    } else if entries[0].package.id == id {
        Some(entries[0])
    } else {
        find_entry(entries.drop_first(), id)
    }
}

/// Whether a package of this list has this id.
pub open spec fn has_package(packages: Seq<PackageView>, id: Text) -> bool {
    exists|i: int| 0 <= i < packages.len() && (#[trigger] packages[i]).id == id
}

/// There is an entry for a package exactly if Cargo told of the package, and it is an entry for that
/// package.
pub proof fn lemma_find_entry(metadata: MetadataView, id: Text)
    ensures
        find_entry(catalog_entries(metadata), id) is Some <==> has_package(metadata.packages, id),
        find_entry(catalog_entries(metadata), id) matches Some(entry) ==> {
            &&& entry.package.id == id
            &&& metadata.packages.contains(entry.package)
            &&& entry == catalog_entry(metadata, entry.package)
        },
{
    let entries = catalog_entries(metadata);
    lemma_find_entry_from(entries, 0, id);
    assert(entries.skip(0) =~= entries);
    if has_package(metadata.packages, id) {
        let i = choose|i: int|
            0 <= i < metadata.packages.len() && (#[trigger] metadata.packages[i]).id == id;
        assert(entries[i].package.id == id);
    }
    if find_entry(entries, id) is Some {
        let i = choose|i: int|
            0 <= i < entries.len() && entries[i].package.id == id && find_entry(entries, id) == Some(
                #[trigger] entries[i],
            );
        assert(metadata.packages[i].id == id);
    }
}

proof fn lemma_find_entry_from(entries: Seq<CrateCatalogEntryView>, from: int, id: Text)
    requires
        0 <= from <= entries.len(),
    ensures
        find_entry(entries.skip(from), id) is None ==> forall|i: int|
            from <= i < entries.len() ==> (#[trigger] entries[i]).package.id != id,
        find_entry(entries.skip(from), id) is Some ==> exists|i: int|
            from <= i < entries.len() && entries[i].package.id == id && find_entry(
                entries.skip(from),
                id,
            ) == Some(#[trigger] entries[i]),
    decreases entries.len() - from,
{
    if from < entries.len() {
        assert(entries.skip(from).drop_first() =~= entries.skip(from + 1));
        lemma_find_entry_from(entries, from + 1, id);
        if entries[from].package.id == id {
            assert(find_entry(entries.skip(from), id) == Some(entries[from]));
        }
    }
}

/// The packages that a workspace is made of and depends on.
pub struct CrateCatalog<'m> {
    metadata: &'m Metadata,
    entries: Vec<CrateCatalogEntry<'m>>,
}

impl<'m> DeepView for CrateCatalog<'m> {
    type V = MetadataView;

    closed spec fn deep_view(&self) -> MetadataView {
        self.metadata.deep_view()
    }
}

impl<'m> CrateCatalog<'m> {
    #[verifier::type_invariant]
    closed spec fn lists_all_packages(&self) -> bool {
        &&& self.metadata.deep_view().resolve is Some
        &&& self.entries.deep_view() == catalog_entries(self.metadata.deep_view())
    }

    /// Makes the catalog of what Cargo says of a workspace. Fails if there is no dependency graph.
    pub fn new(metadata: &'m Metadata) -> (r: Result<CrateCatalog<'m>, RazeError>)
        ensures
            outcome(r) == (if metadata.deep_view().resolve is Some {
                Ok(metadata.deep_view())
            } else {
                Err(missing_resolve())
            }),
    {
        let ghost m = metadata.deep_view();
        let resolve = match &metadata.resolve {
            Some(resolve) => resolve,
            None => {
                return Err(missing_resolve_error());
            },
        };
        let root = &resolve.root;
        let nodes = &resolve.nodes;
        let mut entries: Vec<CrateCatalogEntry<'m>> = Vec::new();
        let mut i: usize = 0;
        assert(entries.deep_view() =~= catalog_entries(m).take(0));
        while i < metadata.packages.len()
            invariant
                m == metadata.deep_view(),
                m.resolve == Some(resolve.deep_view()),
                root.deep_view() == resolve.deep_view().root,
                nodes.deep_view() == resolve.deep_view().nodes,
                i <= metadata.packages.len(),
                entries.deep_view() == catalog_entries(m).take(i as int),
            decreases metadata.packages.len() - i,
        {
            let package = &metadata.packages[i];
            assert(m.packages[i as int] == package.deep_view());
            let is_root = match root {
                Some(id) => same_text(id.as_str(), package.id.as_str()),
                None => false,
            };
            let mut is_root_dep = false;
            let mut k: usize = 0;
            while k < nodes.len()
                invariant
                    root.deep_view() == resolve.deep_view().root,
                    nodes.deep_view() == resolve.deep_view().nodes,
                    k <= nodes.len(),
                    is_root_dep == (exists|j: int|
                        0 <= j < k && resolve.deep_view().root == Some(
                            (#[trigger] resolve.deep_view().nodes[j]).id,
                        ) && resolve.deep_view().nodes[j].dependencies.contains(package.id@)),
                decreases nodes.len() - k,
            {
                let node = &nodes[k];
                let ghost seen = resolve.deep_view().nodes[k as int];
                assert(seen == node.deep_view());
                let at_root = match root {
                    Some(id) => same_text(id.as_str(), node.id.as_str()),
                    None => false,
                };
                if at_root && contains_text(&node.dependencies, package.id.as_str()) {
                    assert(resolve.deep_view().root == Some(seen.id) && seen.dependencies.contains(
                        package.id@,
                    ));
                    is_root_dep = true;
                }
                k = k + 1;
            }
            let is_workspace_crate = contains_text(
                &metadata.workspace_members,
                package.id.as_str(),
            );
            let ghost before = entries.deep_view();
            entries.push(CrateCatalogEntry { package, is_root, is_root_dep, is_workspace_crate });
            assert(entries.deep_view() =~= before.push(catalog_entry(m, package.deep_view())));
            assert(catalog_entries(m).take(i + 1) =~= before.push(catalog_entries(m)[i as int]));
            i = i + 1;
        }
        assert(catalog_entries(m).take(i as int) =~= catalog_entries(m));
        Ok(CrateCatalog { metadata, entries })
    }

    /// What Cargo says of the workspace.
    pub fn metadata(&self) -> (r: &'m Metadata)
        ensures
            r.deep_view() == self.deep_view(),
            self.deep_view().resolve is Some,
    {
        proof {
            use_type_invariant(self);
        }
        self.metadata
    }

    /// The entries, one for each package.
    pub fn entries(&self) -> (r: &Vec<CrateCatalogEntry<'m>>)
        ensures
            r.deep_view() == catalog_entries(self.deep_view()),
    {
        proof {
            use_type_invariant(self);
        }
        &self.entries
    }

    /// The entry for the package `id`.
    pub fn entry_for_package_id(&self, id: &str) -> (r: Option<&CrateCatalogEntry<'m>>)
        ensures
            r.deep_view() == find_entry(catalog_entries(self.deep_view()), id@),
    {
        proof {
            use_type_invariant(self);
        }
        let ghost all = self.entries.deep_view();
        let mut i: usize = 0;
        assert(all.skip(0) =~= all);
        while i < self.entries.len()
            invariant
                all == self.entries.deep_view(),
                all == catalog_entries(self.deep_view()),
                i <= self.entries.len(),
                find_entry(all, id@) == find_entry(all.skip(i as int), id@),
            decreases self.entries.len() - i,
        {
            assert(all.skip(i as int)[0] == self.entries@[i as int].deep_view());
            if same_text(self.entries[i].package.id.as_str(), id) {
                assert(find_entry(all.skip(i as int), id@) == Some(all[i as int]));
                return Some(&self.entries[i]);
            }
            assert(all.skip(i as int).drop_first() =~= all.skip(i + 1));
            i = i + 1;
        }
        None
    }
}

} // verus!
