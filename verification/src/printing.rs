//! How values are printed for debugging, over several lines.

use vstd::prelude::*;

use crate::context::{
    BuildableDependency, BuildableDependencyView, BuildableTarget, BuildableTargetView, CrateContext,
    CrateContextView, CrateDependencyContext, CrateDependencyContextView, CrateTargetedDepContext,
    CrateTargetedDepContextView, DependencyAlias, DependencyAliasView, GitRepo, GitRepoView,
    LicenseData, LicenseDataView, SourceDetails, SourceDetailsView,
};
use crate::settings::{CrateSettings, CrateSettingsView};
use crate::text::{chars_of, Text};
use crate::version::{version_debug, Version};

verus! {

/// A text as `Debug` of `str` prints it: in quotes, and with escapes.
pub uninterp spec fn quoted(text: Seq<char>) -> Seq<char>;

/// Calls `fmt` of `Debug` for `str`. Claimed: what is printed depends on the text alone.
#[verifier::external_body]
fn quote(text: &str) -> (r: String)
    ensures
        r@ == quoted(text@),
{
    format!("{:?}", text)
}

/// A text with four blanks in front of each of its lines.
pub open spec fn indented(text: Text) -> Text
    decreases text.len(),
{
    if text.len() == 0 {
        Seq::empty()
    } else if text.len() == 1 || text[text.len() - 2] == '\n' {
        indented(text.drop_last()) + "    "@ + seq![text.last()]
    } else {
        indented(text.drop_last()) + seq![text.last()]
    }
}

/// Puts four blanks in front of each line of a text.
fn indent(text: &str) -> (r: String)
    ensures
        r@ == indented(text@),
{
    let chars = chars_of(text);
    let mut r = String::new();
    let mut i: usize = 0;
    assert(text@.take(0) =~= Seq::empty());
    assert(r@ =~= Seq::empty());
    while i < chars.len()
        invariant
            chars@ == text@,
            i <= chars.len(),
            r@ == indented(text@.take(i as int)),
        decreases chars.len() - i,
    {
        let ghost longer = text@.take(i + 1);
        proof {
            assert(longer.drop_last() =~= text@.take(i as int));
            assert(longer.last() == chars@[i as int]);
            assert(i > 0 ==> longer[longer.len() - 2] == chars@[i - 1]);
        }
        if i == 0 || chars[i - 1] == '\n' {
            r = r.concat("    ");
        }
        let ghost before = r@;
        r.push(chars[i]);
        assert(before.push(chars@[i as int]) =~= before + seq![chars@[i as int]]);
        i = i + 1;
    }
    assert(text@.take(i as int) =~= text@);
    r
}

/// A line gets four blanks in front, and nothing else. Lines are indented one by one, in their order.
pub proof fn lemma_indented(line: Text, rest: Text)
    requires
        !line.contains('\n'),
    ensures
        indented(Seq::empty()).len() == 0,
        line.len() > 0 ==> indented(line) == "    "@ + line,
        indented(line.push('\n') + rest) == "    "@ + line.push('\n') + indented(rest),
{
    reveal_with_fuel(indented, 2);
    lemma_indented_line(line);
    let ended = line.push('\n');
    assert(ended.drop_last() =~= line);
    if line.len() > 0 {
        assert(ended[ended.len() - 2] == line[line.len() - 1]);
        assert(line.contains(line[line.len() - 1]));
    } else {
        assert(line =~= Seq::empty());
    }
    assert(indented(ended) =~= "    "@ + ended);
    lemma_indented_behind(ended, rest);
}

proof fn lemma_indented_line(line: Text)
    requires
        !line.contains('\n'),
    ensures
        line.len() > 0 ==> indented(line) == "    "@ + line,
    decreases line.len(),
{
    reveal_with_fuel(indented, 2);
    if line.len() > 0 {
        let front = line.drop_last();
        assert forall|i: int| 0 <= i < front.len() implies front[i] != '\n' by {
            assert(line.contains(line[i]));
        }
        lemma_indented_line(front);
        if line.len() > 1 {
            assert(line.contains(line[line.len() - 2]));
        } else {
            assert(front =~= Seq::empty());
        }
        assert(indented(line) =~= "    "@ + line);
    }
}

proof fn lemma_indented_behind(ended: Text, rest: Text)
    requires
        ended.len() > 0,
        ended.last() == '\n',
    ensures
        indented(ended + rest) == indented(ended) + indented(rest),
    decreases rest.len(),
{
    let all = ended + rest;
    if rest.len() == 0 {
        assert(all =~= ended);
        assert(indented(ended) + indented(rest) =~= indented(ended));
    } else {
        let front = rest.drop_last();
        lemma_indented_behind(ended, front);
        assert(all.drop_last() =~= ended + front);
        assert(all.last() == rest.last());
        assert(indented(all) =~= indented(ended) + indented(rest));
    }
}

/// A value on lines of its own, as it stands between brackets.
pub open spec fn item_text(value: Text) -> Text {
    indented(value + ",\n"@)
}

/// A field of a struct, on lines of its own.
pub open spec fn field_text(name: Text, value: Text) -> Text {
    item_text(name + ": "@ + value)
}

/// Values on lines of their own, one behind the other.
pub open spec fn items_text(values: Seq<Text>) -> Text
    decreases values.len(),
{
    if values.len() == 0 {
        Seq::empty()
    } else {
        items_text(values.drop_last()) + item_text(values.last())
    }
}

/// Values between brackets.
pub open spec fn bracketed(open: Text, values: Seq<Text>, close: Text) -> Text {
    if values.len() == 0 {
        open + close
    } else {
        open + "\n"@ + items_text(values) + close
    }
}

/// Something that can be printed for debugging.
pub trait Printed: DeepView {
    /// How a value is printed.
    spec fn debug_of(value: Self::V) -> Text;

    /// Prints the value.
    fn debug_text(&self) -> (r: String)
        ensures
            r@ == Self::debug_of(self.deep_view()),
    ;
}

/// How some values are printed.
pub open spec fn each_debug<T: Printed>(values: Seq<T::V>) -> Seq<Text> {
    values.map_values(|value: T::V| T::debug_of(value))
}

/// How a set of values is printed.
pub open spec fn set_debug<T: Printed>(values: Seq<T::V>) -> Text {
    bracketed("{"@, each_debug::<T>(values), "}"@)
}

/// Prints values between brackets.
fn print_bracketed<T: Printed>(open: &str, values: &Vec<T>, close: &str) -> (r: String)
    ensures
        r@ == bracketed(open@, each_debug::<T>(values.deep_view()), close@),
{
    if values.len() == 0 {
        return open.to_owned().concat(close);
    }
    let ghost all = each_debug::<T>(values.deep_view());
    let mut items = String::new();
    let mut i: usize = 0;
    assert(all.take(0) =~= Seq::empty());
    assert(items@ =~= Seq::empty());
    while i < values.len()
        invariant
            all == each_debug::<T>(values.deep_view()),
            i <= values.len(),
            items@ == items_text(all.take(i as int)),
        decreases values.len() - i,
    {
        proof {
            assert(all.take(i + 1).drop_last() =~= all.take(i as int));
            assert(all.take(i + 1).last() == T::debug_of(values@[i as int].deep_view()));
        }
        let item = indent(values[i].debug_text().concat(",\n").as_str());
        items = items.concat(item.as_str());
        i = i + 1;
    }
    assert(all.take(i as int) =~= all);
    open.to_owned().concat("\n").concat(items.as_str()).concat(close)
}

/// Prints a field of a struct.
fn print_field<T: Printed>(name: &str, value: &T) -> (r: String)
    ensures
        r@ == field_text(name@, T::debug_of(value.deep_view())),
{
    indent(name.to_owned().concat(": ").concat(value.debug_text().as_str()).concat(",\n").as_str())
}

impl Printed for String {
    open spec fn debug_of(value: Text) -> Text {
        quoted(value)
    }

    fn debug_text(&self) -> (r: String) {
        quote(self.as_str())
    }
}

impl Printed for bool {
    open spec fn debug_of(value: bool) -> Text {
        if value {
            "true"@
        } else {
            "false"@
        }
    }

    fn debug_text(&self) -> (r: String) {
        if *self {
            "true".to_owned()
        } else {
            "false".to_owned()
        }
    }
}

impl<T: Printed> Printed for Option<T> {
    open spec fn debug_of(value: Option<T::V>) -> Text {
        match value {
            Some(value) => "Some(\n"@ + item_text(T::debug_of(value)) + ")"@,
            None => "None"@,
        }
    }

    fn debug_text(&self) -> (r: String) {
        match self {
            Some(value) => {
                let item = indent(value.debug_text().concat(",\n").as_str());
                "Some(\n".to_owned().concat(item.as_str()).concat(")")
            },
            None => "None".to_owned(),
        }
    }
}

impl<T: Printed> Printed for Vec<T> {
    open spec fn debug_of(value: Seq<T::V>) -> Text {
        bracketed("["@, each_debug::<T>(value), "]"@)
    }

    fn debug_text(&self) -> (r: String) {
        print_bracketed("[", self, "]")
    }
}

impl Printed for Version {
    open spec fn debug_of(value: Text) -> Text {
        version_debug(value)
    }

    fn debug_text(&self) -> (r: String) {
        self.to_debug_text()
    }
}

impl Printed for BuildableDependency {
    open spec fn debug_of(value: BuildableDependencyView) -> Text {
        "BuildableDependency {\n"@
            + field_text("buildable_target"@, String::debug_of(value.buildable_target))
            + field_text("name"@, String::debug_of(value.name))
            + field_text("version"@, Version::debug_of(value.version))
            + field_text("is_proc_macro"@, bool::debug_of(value.is_proc_macro))
            + "}"@
    }

    fn debug_text(&self) -> (r: String) {
        let mut r = "BuildableDependency {\n".to_owned();
        r = r.concat(print_field("buildable_target", &self.buildable_target).as_str());
        r = r.concat(print_field("name", &self.name).as_str());
        r = r.concat(print_field("version", &self.version).as_str());
        r = r.concat(print_field("is_proc_macro", &self.is_proc_macro).as_str());
        r.concat("}")
    }
}

impl Printed for BuildableTarget {
    open spec fn debug_of(value: BuildableTargetView) -> Text {
        "BuildableTarget {\n"@
            + field_text("kind"@, String::debug_of(value.kind))
            + field_text("name"@, String::debug_of(value.name))
            + field_text("path"@, String::debug_of(value.path))
            + field_text("edition"@, String::debug_of(value.edition))
            + "}"@
    }

    fn debug_text(&self) -> (r: String) {
        let mut r = "BuildableTarget {\n".to_owned();
        r = r.concat(print_field("kind", &self.kind).as_str());
        r = r.concat(print_field("name", &self.name).as_str());
        r = r.concat(print_field("path", &self.path).as_str());
        r = r.concat(print_field("edition", &self.edition).as_str());
        r.concat("}")
    }
}

impl Printed for DependencyAlias {
    open spec fn debug_of(value: DependencyAliasView) -> Text {
        "DependencyAlias {\n"@
            + field_text("target"@, String::debug_of(value.target))
            + field_text("alias"@, String::debug_of(value.alias))
            + "}"@
    }

    fn debug_text(&self) -> (r: String) {
        let mut r = "DependencyAlias {\n".to_owned();
        r = r.concat(print_field("target", &self.target).as_str());
        r = r.concat(print_field("alias", &self.alias).as_str());
        r.concat("}")
    }
}

impl Printed for CrateDependencyContext {
    open spec fn debug_of(value: CrateDependencyContextView) -> Text {
        "CrateDependencyContext {\n"@
            + field_text("dependencies"@, Vec::<BuildableDependency>::debug_of(value.dependencies))
            + field_text("proc_macro_dependencies"@, Vec::<BuildableDependency>::debug_of(value.proc_macro_dependencies))
            + field_text("build_dependencies"@, Vec::<BuildableDependency>::debug_of(value.build_dependencies))
            + field_text("build_proc_macro_dependencies"@, Vec::<BuildableDependency>::debug_of(value.build_proc_macro_dependencies))
            + field_text("dev_dependencies"@, Vec::<BuildableDependency>::debug_of(value.dev_dependencies))
            + field_text("aliased_dependencies"@, set_debug::<DependencyAlias>(value.aliased_dependencies))
            + "}"@
    }

    fn debug_text(&self) -> (r: String) {
        let mut r = "CrateDependencyContext {\n".to_owned();
        r = r.concat(print_field("dependencies", &self.dependencies).as_str());
        r = r.concat(print_field("proc_macro_dependencies", &self.proc_macro_dependencies).as_str());
        r = r.concat(print_field("build_dependencies", &self.build_dependencies).as_str());
        r = r.concat(print_field("build_proc_macro_dependencies", &self.build_proc_macro_dependencies).as_str());
        r = r.concat(print_field("dev_dependencies", &self.dev_dependencies).as_str());
        let aliased_dependencies = print_bracketed("{", &self.aliased_dependencies, "}");
        r = r.concat(
            indent("aliased_dependencies".to_owned().concat(": ").concat(aliased_dependencies.as_str()).concat(",\n").as_str()).as_str(),
        );
        r.concat("}")
    }
}

impl Printed for CrateTargetedDepContext {
    open spec fn debug_of(value: CrateTargetedDepContextView) -> Text {
        "CrateTargetedDepContext {\n"@
            + field_text("target"@, String::debug_of(value.target))
            + field_text("deps"@, CrateDependencyContext::debug_of(value.deps))
            + field_text("platform_targets"@, Vec::<String>::debug_of(value.platform_targets))
            + "}"@
    }

    fn debug_text(&self) -> (r: String) {
        let mut r = "CrateTargetedDepContext {\n".to_owned();
        r = r.concat(print_field("target", &self.target).as_str());
        r = r.concat(print_field("deps", &self.deps).as_str());
        r = r.concat(print_field("platform_targets", &self.platform_targets).as_str());
        r.concat("}")
    }
}

impl Printed for LicenseData {
    open spec fn debug_of(value: LicenseDataView) -> Text {
        "LicenseData {\n"@
            + field_text("license"@, String::debug_of(value.license))
            + "}"@
    }

    fn debug_text(&self) -> (r: String) {
        let mut r = "LicenseData {\n".to_owned();
        r = r.concat(print_field("license", &self.license).as_str());
        r.concat("}")
    }
}

impl Printed for GitRepo {
    open spec fn debug_of(value: GitRepoView) -> Text {
        "GitRepo {\n"@
            + field_text("remote"@, String::debug_of(value.remote))
            + field_text("commit"@, String::debug_of(value.commit))
            + field_text("path_to_crate_root"@, Option::<String>::debug_of(value.path_to_crate_root))
            + "}"@
    }

    fn debug_text(&self) -> (r: String) {
        let mut r = "GitRepo {\n".to_owned();
        r = r.concat(print_field("remote", &self.remote).as_str());
        r = r.concat(print_field("commit", &self.commit).as_str());
        r = r.concat(print_field("path_to_crate_root", &self.path_to_crate_root).as_str());
        r.concat("}")
    }
}

impl Printed for SourceDetails {
    open spec fn debug_of(value: SourceDetailsView) -> Text {
        "SourceDetails {\n"@
            + field_text("git_data"@, Option::<GitRepo>::debug_of(value.git_data))
            + "}"@
    }

    fn debug_text(&self) -> (r: String) {
        let mut r = "SourceDetails {\n".to_owned();
        r = r.concat(print_field("git_data", &self.git_data).as_str());
        r.concat("}")
    }
}

impl Printed for CrateSettings {
    open spec fn debug_of(value: CrateSettingsView) -> Text {
        "CrateSettings {\n"@
            + field_text("additional_deps"@, Vec::<String>::debug_of(value.additional_deps))
            + field_text("skipped_deps"@, Vec::<String>::debug_of(value.skipped_deps))
            + field_text("extra_aliased_targets"@, Vec::<String>::debug_of(value.extra_aliased_targets))
            + field_text("additional_flags"@, Vec::<String>::debug_of(value.additional_flags))
            + field_text("gen_buildrs"@, Option::<bool>::debug_of(value.gen_buildrs))
            + field_text("data_attr"@, Option::<String>::debug_of(value.data_attr))
            + field_text("additional_build_file"@, Option::<String>::debug_of(value.additional_build_file))
            + field_text("patches"@, Vec::<String>::debug_of(value.patches))
            + field_text("patch_cmds"@, Vec::<String>::debug_of(value.patch_cmds))
            + field_text("patch_cmds_win"@, Vec::<String>::debug_of(value.patch_cmds_win))
            + field_text("patch_tool"@, Option::<String>::debug_of(value.patch_tool))
            + "}"@
    }

    fn debug_text(&self) -> (r: String) {
        let mut r = "CrateSettings {\n".to_owned();
        r = r.concat(print_field("additional_deps", &self.additional_deps).as_str());
        r = r.concat(print_field("skipped_deps", &self.skipped_deps).as_str());
        r = r.concat(print_field("extra_aliased_targets", &self.extra_aliased_targets).as_str());
        r = r.concat(print_field("additional_flags", &self.additional_flags).as_str());
        r = r.concat(print_field("gen_buildrs", &self.gen_buildrs).as_str());
        r = r.concat(print_field("data_attr", &self.data_attr).as_str());
        r = r.concat(print_field("additional_build_file", &self.additional_build_file).as_str());
        r = r.concat(print_field("patches", &self.patches).as_str());
        r = r.concat(print_field("patch_cmds", &self.patch_cmds).as_str());
        r = r.concat(print_field("patch_cmds_win", &self.patch_cmds_win).as_str());
        r = r.concat(print_field("patch_tool", &self.patch_tool).as_str());
        r.concat("}")
    }
}

impl Printed for CrateContext {
    open spec fn debug_of(value: CrateContextView) -> Text {
        "CrateContext {\n"@
            + field_text("pkg_name"@, String::debug_of(value.pkg_name))
            + field_text("pkg_version"@, Version::debug_of(value.pkg_version))
            + field_text("edition"@, String::debug_of(value.edition))
            + field_text("raze_settings"@, CrateSettings::debug_of(value.raze_settings))
            + field_text("license"@, LicenseData::debug_of(value.license))
            + field_text("features"@, Vec::<String>::debug_of(value.features))
            + field_text("workspace_path_to_crate"@, String::debug_of(value.workspace_path_to_crate))
            + field_text("default_deps"@, CrateDependencyContext::debug_of(value.default_deps))
            + field_text("targeted_deps"@, Vec::<CrateTargetedDepContext>::debug_of(value.targeted_deps))
            + field_text("is_root_dependency"@, bool::debug_of(value.is_root_dependency))
            + field_text("targets"@, Vec::<BuildableTarget>::debug_of(value.targets))
            + field_text("build_script_target"@, Option::<BuildableTarget>::debug_of(value.build_script_target))
            + field_text("source_details"@, SourceDetails::debug_of(value.source_details))
            + field_text("sha256"@, Option::<String>::debug_of(value.sha256))
            + field_text("registry_url"@, String::debug_of(value.registry_url))
            + field_text("expected_build_path"@, String::debug_of(value.expected_build_path))
            + field_text("lib_target_name"@, Option::<String>::debug_of(value.lib_target_name))
            + "}"@
    }

    fn debug_text(&self) -> (r: String) {
        let mut r = "CrateContext {\n".to_owned();
        r = r.concat(print_field("pkg_name", &self.pkg_name).as_str());
        r = r.concat(print_field("pkg_version", &self.pkg_version).as_str());
        r = r.concat(print_field("edition", &self.edition).as_str());
        r = r.concat(print_field("raze_settings", &self.raze_settings).as_str());
        r = r.concat(print_field("license", &self.license).as_str());
        r = r.concat(print_field("features", &self.features).as_str());
        r = r.concat(print_field("workspace_path_to_crate", &self.workspace_path_to_crate).as_str());
        r = r.concat(print_field("default_deps", &self.default_deps).as_str());
        r = r.concat(print_field("targeted_deps", &self.targeted_deps).as_str());
        r = r.concat(print_field("is_root_dependency", &self.is_root_dependency).as_str());
        r = r.concat(print_field("targets", &self.targets).as_str());
        r = r.concat(print_field("build_script_target", &self.build_script_target).as_str());
        r = r.concat(print_field("source_details", &self.source_details).as_str());
        r = r.concat(print_field("sha256", &self.sha256).as_str());
        r = r.concat(print_field("registry_url", &self.registry_url).as_str());
        r = r.concat(print_field("expected_build_path", &self.expected_build_path).as_str());
        r = r.concat(print_field("lib_target_name", &self.lib_target_name).as_str());
        r.concat("}")
    }
}

} // verus!
