//! How a workspace is to be planned.

use vstd::prelude::*;

use crate::table::{Keyed, Table};
use crate::text::{copy_optional_text, copy_texts, replace_text, replaced, Text};
use crate::version::{version_req_display, VersionReq};

verus! {

/// How the sources of crates get into a Bazel workspace.
#[derive(Debug, Clone, Copy, PartialEq, Eq, Structural)]
pub enum GenMode {
    /// Bazel fetches them.
    Remote,
    /// They are checked in.
    Vendored,
    /// Nobody said.
    Unspecified,
}

/// Settings for some versions of a crate.
#[derive(Debug, PartialEq, Eq)]
pub struct CrateSettings {
    /// Labels of further dependencies.
    pub additional_deps: Vec<String>,
    /// Dependencies to leave out, as `name-version`.
    pub skipped_deps: Vec<String>,
    /// Further targets of the crate that get an alias.
    pub extra_aliased_targets: Vec<String>,
    /// Further compiler flags.
    pub additional_flags: Vec<String>,
    /// Whether the build script is built.
    pub gen_buildrs: Option<bool>,
    pub data_attr: Option<String>,
    pub additional_build_file: Option<String>,
    pub patches: Vec<String>,
    pub patch_cmds: Vec<String>,
    pub patch_cmds_win: Vec<String>,
    pub patch_tool: Option<String>,
}

/// What a [`CrateSettings`] holds.
#[verifier::ext_equal]
pub struct CrateSettingsView {
    pub additional_deps: Seq<Text>,
    pub skipped_deps: Seq<Text>,
    pub extra_aliased_targets: Seq<Text>,
    pub additional_flags: Seq<Text>,
    pub gen_buildrs: Option<bool>,
    pub data_attr: Option<Text>,
    pub additional_build_file: Option<Text>,
    pub patches: Seq<Text>,
    pub patch_cmds: Seq<Text>,
    pub patch_cmds_win: Seq<Text>,
    pub patch_tool: Option<Text>,
}

impl DeepView for CrateSettings {
    type V = CrateSettingsView;

    open spec fn deep_view(&self) -> CrateSettingsView {
        CrateSettingsView {
            additional_deps: self.additional_deps.deep_view(),
            skipped_deps: self.skipped_deps.deep_view(),
            extra_aliased_targets: self.extra_aliased_targets.deep_view(),
            additional_flags: self.additional_flags.deep_view(),
            gen_buildrs: self.gen_buildrs,
            data_attr: self.data_attr.deep_view(),
            additional_build_file: self.additional_build_file.deep_view(),
            patches: self.patches.deep_view(),
            patch_cmds: self.patch_cmds.deep_view(),
            patch_cmds_win: self.patch_cmds_win.deep_view(),
            patch_tool: self.patch_tool.deep_view(),
        }
    }
}

impl Clone for CrateSettings {
    fn clone(&self) -> (r: Self)
        ensures
            r.deep_view() == self.deep_view(),
    {
        CrateSettings {
            additional_deps: copy_texts(&self.additional_deps),
            skipped_deps: copy_texts(&self.skipped_deps),
            extra_aliased_targets: copy_texts(&self.extra_aliased_targets),
            additional_flags: copy_texts(&self.additional_flags),
            gen_buildrs: self.gen_buildrs,
            data_attr: copy_optional_text(&self.data_attr),
            additional_build_file: copy_optional_text(&self.additional_build_file),
            patches: copy_texts(&self.patches),
            patch_cmds: copy_texts(&self.patch_cmds),
            patch_cmds_win: copy_texts(&self.patch_cmds_win),
            patch_tool: copy_optional_text(&self.patch_tool),
        }
    }
}

/// Settings for the versions of a crate that satisfy a requirement.
#[derive(Debug, PartialEq, Eq)]
pub struct VersionedCrateSettings {
    pub req: VersionReq,
    pub settings: CrateSettings,
}

/// What a [`VersionedCrateSettings`] holds.
#[verifier::ext_equal]
pub struct VersionedCrateSettingsView {
    pub req: Text,
    pub settings: CrateSettingsView,
}

impl DeepView for VersionedCrateSettings {
    type V = VersionedCrateSettingsView;

    open spec fn deep_view(&self) -> VersionedCrateSettingsView {
        VersionedCrateSettingsView {
            req: self.req.deep_view(),
            settings: self.settings.deep_view(),
        }
    }
}

impl Clone for VersionedCrateSettings {
    fn clone(&self) -> (r: Self)
        ensures
            r.deep_view() == self.deep_view(),
    {
        VersionedCrateSettings {
            req: self.req.clone(),
            settings: self.settings.clone(),
        }
    }
}

impl Keyed for VersionedCrateSettings {
    /// The requirement.
    open spec fn key_of(item: VersionedCrateSettingsView) -> Text {
        version_req_display(item.req)
    }

    fn key(&self) -> (r: String) {
        self.req.to_text()
    }

    fn copy(&self) -> (r: Self) {
        self.clone()
    }
}

/// The settings for a crate.
#[derive(Debug, PartialEq, Eq)]
pub struct NamedCrateSettings {
    pub name: String,
    pub versions: Table<VersionedCrateSettings>,
}

/// What a [`NamedCrateSettings`] holds.
#[verifier::ext_equal]
pub struct NamedCrateSettingsView {
    pub name: Text,
    pub versions: Seq<VersionedCrateSettingsView>,
}

impl DeepView for NamedCrateSettings {
    type V = NamedCrateSettingsView;

    open spec fn deep_view(&self) -> NamedCrateSettingsView {
        NamedCrateSettingsView {
            name: self.name.deep_view(),
            versions: self.versions.deep_view(),
        }
    }
}

impl Clone for NamedCrateSettings {
    fn clone(&self) -> (r: Self)
        ensures
            r.deep_view() == self.deep_view(),
    {
        NamedCrateSettings { name: self.name.clone(), versions: self.versions.clone() }
    }
}

impl Keyed for NamedCrateSettings {
    /// The name of the crate.
    open spec fn key_of(item: NamedCrateSettingsView) -> Text {
        item.name
    }

    fn key(&self) -> (r: String) {
        self.name.clone()
    }

    fn copy(&self) -> (r: Self) {
        self.clone()
    }
}

/// A crate that is wanted for its binaries.
#[derive(Debug, PartialEq, Eq)]
pub struct BinaryDependency {
    pub name: String,
    /// The version, as it is written.
    pub req: String,
}

/// What a [`BinaryDependency`] holds.
#[verifier::ext_equal]
pub struct BinaryDependencyView {
    pub name: Text,
    pub req: Text,
}

impl DeepView for BinaryDependency {
    type V = BinaryDependencyView;

    open spec fn deep_view(&self) -> BinaryDependencyView {
        BinaryDependencyView {
            name: self.name.deep_view(),
            req: self.req.deep_view(),
        }
    }
}

impl Clone for BinaryDependency {
    fn clone(&self) -> (r: Self)
        ensures
            r.deep_view() == self.deep_view(),
    {
        BinaryDependency {
            name: self.name.clone(),
            req: self.req.clone(),
        }
    }
}

impl Keyed for BinaryDependency {
    /// The name of the crate.
    open spec fn key_of(item: BinaryDependencyView) -> Text {
        item.name
    }

    fn key(&self) -> (r: String) {
        self.name.clone()
    }

    fn copy(&self) -> (r: Self) {
        self.clone()
    }
}

/// The settings of a workspace.
#[derive(Debug, PartialEq, Eq)]
pub struct RazeSettings {
    /// The Bazel path below which the build files go.
    pub workspace_path: String,
    /// What the names of generated repositories begin with.
    pub gen_workspace_prefix: String,
    /// What BUILD files are called.
    pub output_buildfile_suffix: String,
    pub genmode: GenMode,
    /// Whether build scripts are built where the settings of a crate say nothing.
    pub default_gen_buildrs: bool,
    pub binary_deps: Table<BinaryDependency>,
    /// The URL of a crate, with `{crate}` and `{version}` for its name and version.
    pub registry: String,
    pub index_url: String,
    pub crates: Table<NamedCrateSettings>,
    /// The one target to plan for.
    pub target: Option<String>,
    /// The targets to plan for.
    pub targets: Option<Vec<String>>,
}

/// What a [`RazeSettings`] holds.
#[verifier::ext_equal]
pub struct RazeSettingsView {
    pub workspace_path: Text,
    pub gen_workspace_prefix: Text,
    pub output_buildfile_suffix: Text,
    pub genmode: GenMode,
    pub default_gen_buildrs: bool,
    pub binary_deps: Seq<BinaryDependencyView>,
    pub registry: Text,
    pub index_url: Text,
    pub crates: Seq<NamedCrateSettingsView>,
    pub target: Option<Text>,
    pub targets: Option<Seq<Text>>,
}

impl DeepView for RazeSettings {
    type V = RazeSettingsView;

    open spec fn deep_view(&self) -> RazeSettingsView {
        RazeSettingsView {
            workspace_path: self.workspace_path.deep_view(),
            gen_workspace_prefix: self.gen_workspace_prefix.deep_view(),
            output_buildfile_suffix: self.output_buildfile_suffix.deep_view(),
            genmode: self.genmode,
            default_gen_buildrs: self.default_gen_buildrs,
            binary_deps: self.binary_deps.deep_view(),
            registry: self.registry.deep_view(),
            index_url: self.index_url.deep_view(),
            crates: self.crates.deep_view(),
            target: self.target.deep_view(),
            targets: self.targets.deep_view(),
        }
    }
}

impl Clone for RazeSettings {
    fn clone(&self) -> (r: Self)
        ensures
            r.deep_view() == self.deep_view(),
    {
        RazeSettings {
            workspace_path: self.workspace_path.clone(),
            gen_workspace_prefix: self.gen_workspace_prefix.clone(),
            output_buildfile_suffix: self.output_buildfile_suffix.clone(),
            genmode: self.genmode,
            default_gen_buildrs: self.default_gen_buildrs,
            binary_deps: self.binary_deps.clone(),
            registry: self.registry.clone(),
            index_url: self.index_url.clone(),
            crates: self.crates.clone(),
            target: copy_optional_text(&self.target),
            targets: match &self.targets {
                Some(names) => Some(copy_texts(names)),
                None => None,
            },
        }
    }
}

impl CrateSettings {
    /// The settings of a crate for which nothing is set.
    pub open spec fn nothing_set() -> CrateSettingsView {
        CrateSettingsView {
            additional_deps: Seq::empty(),
            skipped_deps: Seq::empty(),
            extra_aliased_targets: Seq::empty(),
            additional_flags: Seq::empty(),
            gen_buildrs: None,
            data_attr: None,
            additional_build_file: None,
            patches: Seq::empty(),
            patch_cmds: Seq::empty(),
            patch_cmds_win: Seq::empty(),
            patch_tool: None,
        }
    }
}

impl Default for CrateSettings {
    fn default() -> (r: Self)
        ensures
            r.deep_view() == CrateSettings::nothing_set(),
    {
        let r = CrateSettings {
            additional_deps: Vec::new(),
            skipped_deps: Vec::new(),
            extra_aliased_targets: Vec::new(),
            additional_flags: Vec::new(),
            gen_buildrs: None,
            data_attr: None,
            additional_build_file: None,
            patches: Vec::new(),
            patch_cmds: Vec::new(),
            patch_cmds_win: Vec::new(),
            patch_tool: None,
        };
        assert(r.deep_view() =~= CrateSettings::nothing_set());
        r
    }
}

/// The URL of a crate: that of the registry, with the crate's name and version filled in.
pub open spec fn registry_url(registry: Text, name: Text, version: Text) -> Text {
    replaced(replaced(registry, "{crate}"@, name), "{version}"@, version)
}

/// Fills the name and version of a crate into the URL of a registry.
pub fn format_registry_url(registry: &str, name: &str, version: &str) -> (r: String)
    ensures
        r@ == registry_url(registry@, name@, version@),
{
    proof {
        reveal_strlit("{crate}");
        reveal_strlit("{version}");
    }
    let named = replace_text(registry, "{crate}", name);
    replace_text(named.as_str(), "{version}", version)
}

} // verus!
