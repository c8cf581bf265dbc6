//! Checks that come before planning.

use vstd::prelude::*;

use crate::error::{outcome, RazeError, RazeErrorView};
use crate::metadata::{Metadata, MetadataView, NodeView, Package, PackageView};
use crate::planning::crate_catalog::{
    has_package, ident_of, missing_resolve, missing_resolve_error, package_ident, CrateCatalogEntry,
    CrateCatalogEntryView,
};
use crate::settings::{NamedCrateSettings, NamedCrateSettingsView};
use crate::text::{contains_text, same_text, Text};

verus! {

/// The id of the first node whose package is not among `packages`.
pub open spec fn first_unknown_node(nodes: Seq<NodeView>, packages: Seq<PackageView>) -> Option<Text>
    decreases nodes.len(),
{
    if nodes.len() == 0 {
        None
    } else if !has_package(packages, nodes[0].id) {
        Some(nodes[0].id)
    } else {
        first_unknown_node(nodes.drop_first(), packages)
    }
}

/// The error for a package that Cargo did not tell of.
pub open spec fn unknown_package(id: Text) -> RazeErrorView {
    RazeErrorView::Planning {
        dependency_name_opt: None,
        message: "Failed to find metadata for the package "@ + id,
    }
}

/// What the check of a dependency graph says.
pub open spec fn resolve_check(metadata: MetadataView) -> Result<(), RazeErrorView> {
    match metadata.resolve {
        Some(resolve) => match first_unknown_node(resolve.nodes, metadata.packages) {
            Some(id) => Err(unknown_package(id)),
            None => Ok(()),
        },
        None => Err(missing_resolve()),
    }
}

/// Whether there is a dependency graph, and Cargo told of the package of each of its nodes.
pub open spec fn resolve_matches_packages(metadata: MetadataView) -> bool {
    metadata.resolve matches Some(resolve) && forall|i: int|
        0 <= i < resolve.nodes.len() ==> has_package(
            metadata.packages,
            (#[trigger] resolve.nodes[i]).id,
        )
}

/// The check of a dependency graph passes exactly if Cargo told of the package of every node.
pub proof fn lemma_resolve_check(metadata: MetadataView)
    ensures
        resolve_check(metadata) is Ok <==> resolve_matches_packages(metadata),
{
    if metadata.resolve is Some {
        lemma_first_unknown_node(metadata.resolve->Some_0.nodes, metadata.packages);
    }
}

proof fn lemma_first_unknown_node(nodes: Seq<NodeView>, packages: Seq<PackageView>)
    ensures
        first_unknown_node(nodes, packages) is None <==> forall|i: int|
            0 <= i < nodes.len() ==> has_package(packages, (#[trigger] nodes[i]).id),
    decreases nodes.len(),
{
    if nodes.len() > 0 {
        let rest = nodes.drop_first();
        lemma_first_unknown_node(rest, packages);
        if first_unknown_node(nodes, packages) is None {
            assert forall|i: int| 0 <= i < nodes.len() implies has_package(
                packages,
                (#[trigger] nodes[i]).id,
            ) by {
                if i > 0 {
                    assert(rest[i - 1] == nodes[i]);
                }
            }
        } else if has_package(packages, nodes[0].id) {
            let i = choose|i: int|
                0 <= i < rest.len() && !has_package(packages, (#[trigger] rest[i]).id);
            assert(rest[i] == nodes[i + 1]);
        }
    }
}

/// Whether a package of `packages` has this id.
pub fn package_exists(packages: &Vec<Package>, id: &str) -> (r: bool)
    ensures
        r == has_package(packages.deep_view(), id@),
{
    let mut i: usize = 0;
    while i < packages.len()
        invariant
            i <= packages.len(),
            forall|j: int| 0 <= j < i ==> (#[trigger] packages.deep_view()[j]).id != id@,
        decreases packages.len() - i,
    {
        if same_text(packages[i].id.as_str(), id) {
            assert(packages.deep_view()[i as int].id == id@);
            return true;
        }
        i = i + 1;
    }
    false
}

/// Checks that there is a dependency graph, and that Cargo told of the package of each of its nodes.
pub fn check_resolve_matches_packages(metadata: &Metadata) -> (r: Result<(), RazeError>)
    ensures
        outcome(r) == resolve_check(metadata.deep_view()),
        r is Ok <==> resolve_matches_packages(metadata.deep_view()),
{
    proof {
        lemma_resolve_check(metadata.deep_view());
    }
    let resolve = match &metadata.resolve {
        Some(resolve) => resolve,
        None => {
            return Err(missing_resolve_error());
        },
    };
    let nodes = &resolve.nodes;
    let ghost all = nodes.deep_view();
    let ghost packages = metadata.packages.deep_view();
    let mut i: usize = 0;
    assert(all.skip(0) =~= all);
    while i < nodes.len()
        invariant
            all == nodes.deep_view(),
            packages == metadata.packages.deep_view(),
            resolve_check(metadata.deep_view()) == (match first_unknown_node(all, packages) {
                Some(id) => Err::<(), RazeErrorView>(unknown_package(id)),
                None => Ok(()),
            }),
            resolve_check(metadata.deep_view()) is Ok <==> resolve_matches_packages(
                metadata.deep_view(),
            ),
            i <= nodes.len(),
            first_unknown_node(all, packages) == first_unknown_node(all.skip(i as int), packages),
        decreases nodes.len() - i,
    {
        assert(all.skip(i as int)[0] == nodes@[i as int].deep_view());
        if !package_exists(&metadata.packages, nodes[i].id.as_str()) {
            assert(first_unknown_node(all.skip(i as int), packages) == Some(all[i as int].id));
            return Err(
                RazeError::Planning {
                    dependency_name_opt: None,
                    message: "Failed to find metadata for the package ".to_owned().concat(
                        nodes[i].id.as_str(),
                    ),
                },
            );
        }
        assert(all.skip(i as int).drop_first() =~= all.skip(i + 1));
        i = i + 1;
    }
    Ok(())
}

/// Whether the sources of a package are checked in, or need not be. Those of the root and of the
/// packages of the workspace need not.
pub open spec fn is_vendored(entry: CrateCatalogEntryView, vendored: Seq<Text>) -> bool {
    entry.is_root || entry.is_workspace_crate || vendored.contains(package_ident(entry.package))
}

/// The first package whose sources should be checked in and are not.
pub open spec fn first_not_vendored(
    entries: Seq<CrateCatalogEntryView>,
    vendored: Seq<Text>,
) -> Option<PackageView>
    decreases entries.len(),
{
    if entries.len() == 0 {
        None
    } else if !is_vendored(entries[0], vendored) {
        Some(entries[0].package)
    } else {
        first_not_vendored(entries.drop_first(), vendored)
    }
}

/// The error for a package whose sources are not checked in.
pub open spec fn not_vendored(package: PackageView, workspace_path: Text) -> RazeErrorView {
    RazeErrorView::Planning {
        dependency_name_opt: Some(package.name),
        message: "Failed to find the vendored sources of "@ + package_ident(package) + " in "@
            + workspace_path + "/vendor"@,
    }
}

/// What the check of the sources that are checked in says.
pub open spec fn vendored_check(
    entries: Seq<CrateCatalogEntryView>,
    vendored: Seq<Text>,
    workspace_path: Text,
) -> Result<(), RazeErrorView> {
    match first_not_vendored(entries, vendored) {
        Some(package) => Err(not_vendored(package, workspace_path)),
        None => Ok(()),
    }
}

/// The check of the sources that are checked in passes exactly if none is missing.
pub proof fn lemma_vendored_check(
    entries: Seq<CrateCatalogEntryView>,
    vendored: Seq<Text>,
    workspace_path: Text,
)
    ensures
        vendored_check(entries, vendored, workspace_path) is Ok <==> forall|i: int|
            0 <= i < entries.len() ==> is_vendored(#[trigger] entries[i], vendored),
    decreases entries.len(),
{
    if entries.len() > 0 {
        let rest = entries.drop_first();
        lemma_vendored_check(rest, vendored, workspace_path);
        if first_not_vendored(entries, vendored) is None {
            assert forall|i: int| 0 <= i < entries.len() implies is_vendored(
                #[trigger] entries[i],
                vendored,
            ) by {
                if i > 0 {
                    assert(rest[i - 1] == entries[i]);
                }
            }
        } else if is_vendored(entries[0], vendored) {
            let i = choose|i: int|
                0 <= i < rest.len() && !is_vendored(#[trigger] rest[i], vendored);
            assert(rest[i] == entries[i + 1]);
        }
    }
}

/// Checks that the sources of all packages that need it are checked in. `vendored` are those that
/// are, as `name-version`.
pub fn check_all_vendored(
    entries: &Vec<CrateCatalogEntry<'_>>,
    vendored: &Vec<String>,
    workspace_path: &str,
) -> (r: Result<(), RazeError>)
    ensures
        outcome(r) == vendored_check(entries.deep_view(), vendored.deep_view(), workspace_path@),
{
    let ghost all = entries.deep_view();
    let mut i: usize = 0;
    assert(all.skip(0) =~= all);
    while i < entries.len()
        invariant
            all == entries.deep_view(),
            i <= entries.len(),
            first_not_vendored(all, vendored.deep_view()) == first_not_vendored(
                all.skip(i as int),
                vendored.deep_view(),
            ),
        decreases entries.len() - i,
    {
        let entry = &entries[i];
        assert(all.skip(i as int)[0] == entry.deep_view());
        let ident = ident_of(entry.package());
        if !entry.is_root() && !entry.is_workspace_crate() && !contains_text(
            vendored,
            ident.as_str(),
        ) {
            assert(first_not_vendored(all.skip(i as int), vendored.deep_view()) == Some(
                all[i as int].package,
            ));
            return Err(
                RazeError::Planning {
                    dependency_name_opt: Some(entry.package().name.clone()),
                    message: "Failed to find the vendored sources of ".to_owned().concat(
                        ident.as_str(),
                    ).concat(" in ").concat(workspace_path).concat("/vendor"),
                },
            );
        }
        assert(all.skip(i as int).drop_first() =~= all.skip(i + 1));
        i = i + 1;
    }
    Ok(())
}

/// Whether a package of this list has this name.
pub open spec fn is_package_name(packages: Seq<PackageView>, name: Text) -> bool {
    exists|i: int| 0 <= i < packages.len() && (#[trigger] packages[i]).name == name
}

/// The crates that settings are for and that no package is.
pub open spec fn unused_names(
    crates: Seq<NamedCrateSettingsView>,
    packages: Seq<PackageView>,
) -> Seq<Text>
    decreases crates.len(),
{
    if crates.len() == 0 {
        Seq::empty()
    } else {
        let before = unused_names(crates.drop_last(), packages);
        if is_package_name(packages, crates.last().name) {
            before
        } else {
            before.push(crates.last().name)
        }
    }
}

/// The crates that settings are for and that no package is, in the order of the settings.
pub fn unused_settings(crates: &Vec<NamedCrateSettings>, packages: &Vec<&Package>) -> (r: Vec<
    String,
>)
    ensures
        r.deep_view() == unused_names(crates.deep_view(), packages.deep_view()),
        forall|name: Text| #[trigger]
            r.deep_view().contains(name) <==> is_settings_name(crates.deep_view(), name)
                && !is_package_name(packages.deep_view(), name),
{
    let ghost all = crates.deep_view();
    let mut r: Vec<String> = Vec::new();
    let mut i: usize = 0;
    assert(all.take(0) =~= Seq::empty());
    assert(r.deep_view() =~= Seq::empty());
    while i < crates.len()
        invariant
            all == crates.deep_view(),
            i <= crates.len(),
            r.deep_view() == unused_names(all.take(i as int), packages.deep_view()),
        decreases crates.len() - i,
    {
        let ghost before = r.deep_view();
        proof {
            assert(all.take(i + 1).drop_last() =~= all.take(i as int));
            assert(all.take(i + 1).last() == crates@[i as int].deep_view());
        }
        if !has_name(packages, crates[i].name.as_str()) {
            r.push(crates[i].name.clone());
            assert(r.deep_view() =~= before.push(all[i as int].name));
        }
        i = i + 1;
    }
    proof {
        assert(all.take(i as int) =~= all);
        lemma_unused_names(all, packages.deep_view());
    }
    r
}

/// Whether there are settings for a crate of this name.
pub open spec fn is_settings_name(crates: Seq<NamedCrateSettingsView>, name: Text) -> bool {
    exists|i: int| 0 <= i < crates.len() && (#[trigger] crates[i]).name == name
}

/// The settings of no use are exactly those for crates that no package is.
pub proof fn lemma_unused_names(crates: Seq<NamedCrateSettingsView>, packages: Seq<PackageView>)
    ensures
        forall|name: Text| #[trigger]
            unused_names(crates, packages).contains(name) <==> is_settings_name(crates, name)
                && !is_package_name(packages, name),
    decreases crates.len(),
{
    let unused = unused_names(crates, packages);
    if crates.len() > 0 {
        let front = crates.drop_last();
        let last = crates.last();
        let before = unused_names(front, packages);
        lemma_unused_names(front, packages);
        assert forall|name: Text| #[trigger]
            unused.contains(name) <==> is_settings_name(crates, name) && !is_package_name(
                packages,
                name,
            ) by {
            if unused.contains(name) {
                let k = choose|k: int| 0 <= k < unused.len() && unused[k] == name;
                if k < before.len() {
                    assert(before[k] == name);
                    assert(before.contains(name));
                    let i = choose|i: int| 0 <= i < front.len() && (#[trigger] front[i]).name == name;
                    assert(crates[i].name == name);
                } else {
                    assert(crates[crates.len() - 1].name == name);
                }
            }
            if is_settings_name(crates, name) && !is_package_name(packages, name) {
                let i = choose|i: int| 0 <= i < crates.len() && (#[trigger] crates[i]).name == name;
                if i < front.len() {
                    assert(front[i].name == name);
                    assert(before.contains(name));
                    let k = choose|k: int| 0 <= k < before.len() && before[k] == name;
                    assert(unused[k] == name);
                } else {
                    assert(unused[unused.len() - 1] == name);
                }
            }
        }
    }
}

/// Whether a package has this name.
fn has_name(packages: &Vec<&Package>, name: &str) -> (r: bool)
    ensures
        r == is_package_name(packages.deep_view(), name@),
{
    let mut i: usize = 0;
    while i < packages.len()
        invariant
            i <= packages.len(),
            forall|j: int| 0 <= j < i ==> (#[trigger] packages.deep_view()[j]).name != name@,
        decreases packages.len() - i,
    {
        assert(packages.deep_view()[i as int] == packages@[i as int].deep_view());
        if same_text(packages[i].name.as_str(), name) {
            return true;
        }
        i = i + 1;
    }
    false
}

} // verus!
