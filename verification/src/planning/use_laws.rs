//! What a context says of the dependencies of a crate: each use of a dependency that is wanted stands in
//! the list that it belongs to, as often as it is there, and each renamed one has its alias.

use vstd::prelude::*;

use crate::context::{
    BuildableDependency, BuildableDependencyView, CrateContextView, CrateDependencyContext,
    CrateDependencyContextView, CrateTargetedDepContext, DependencyAlias, DependencyAliasView,
};
use crate::error::RazeErrorView;
use crate::metadata::{DepKindInfoView, DependencyKind, MetadataView, NodeDepView, PackageView};
use crate::planning::crate_catalog::{catalog_entries, find_entry};
use crate::planning::crate_subplanner::{
    deps_in_order, is_proc_macro_package, is_renamed_by, lists_in_order, renames, set_for,
    with_dependency, with_set, with_sorted_lists, CrateSubplannerView, PlatformDepsView,
};
use crate::planning::dependency_laws::{
    lemma_context_deps_tidy, lemma_deps_tidy, lemma_matching_triples, lemma_set_for_sorted,
    lemma_targeted_deps, lemma_targeted_sets,
};
use crate::platform::{
    matches_some_triple, matching_triples, platform_matches, platform_reads, triple_chosen,
    triple_matches, BazelTripleView,
};
use crate::settings::{GenMode, RazeSettingsView};
use crate::sorting::{
    in_order, lemma_inserted_in_place, lemma_stable_sorted_keeps_items, Ranked,
};
use crate::text::{sanitized, text_before, Text};
use crate::version::{version_le, version_req_matches};

verus! {

/// Whether the package at `j` is the first with this id.
pub open spec fn is_first_with_id(packages: Seq<PackageView>, id: Text, j: int) -> bool {
    &&& 0 <= j < packages.len()
    &&& packages[j].id == id
    &&& forall|h: int| 0 <= h < j ==> (#[trigger] packages[h]).id != id
}

/// The first package with this id.
pub open spec fn first_with_id(packages: Seq<PackageView>, id: Text) -> PackageView {
    packages[choose|j: int| is_first_with_id(packages, id, j)]
}

/// Whether Cargo told of every package that the crate depends on.
pub open spec fn knows_every_dep(view: CrateSubplannerView) -> bool {
    forall|i: int|
        0 <= i < view.node.deps.len() ==> is_package_id(
            view.catalog.packages,
            (#[trigger] view.node.deps[i]).pkg,
        )
}

/// Whether one of these packages has this id.
pub open spec fn is_package_id(packages: Seq<PackageView>, id: Text) -> bool {
    exists|j: int| is_first_with_id(packages, id, j)
}

/// The entry for an id is that of the first package with it.
pub proof fn lemma_first_with_id(metadata: MetadataView, id: Text, j: int)
    requires
        is_first_with_id(metadata.packages, id, j),
    ensures
        find_entry(catalog_entries(metadata), id) matches Some(entry) && entry.package
            == metadata.packages[j],
        first_with_id(metadata.packages, id) == metadata.packages[j],
{
    let packages = metadata.packages;
    let entries = catalog_entries(metadata);
    let h = choose|h: int| is_first_with_id(packages, id, h);
    assert(is_first_with_id(packages, id, h));
    if h < j {
        assert(packages[h].id != id);
    }
    if j < h {
        assert(packages[j].id != id);
    }
    lemma_entries_before(metadata, id, 0, j);
    assert(entries.skip(0) =~= entries);
}

proof fn lemma_entries_before(metadata: MetadataView, id: Text, from: int, j: int)
    requires
        is_first_with_id(metadata.packages, id, j),
        0 <= from <= j,
    ensures
        find_entry(catalog_entries(metadata).skip(from), id) == Some(catalog_entries(metadata)[j]),
    decreases j - from,
{
    let entries = catalog_entries(metadata);
    let rest = entries.skip(from);
    assert(rest[0] == entries[from]);
    assert(entries[from].package == metadata.packages[from]);
    if from < j {
        assert(metadata.packages[from].id != id);
        assert(rest.drop_first() =~= entries.skip(from + 1));
        lemma_entries_before(metadata, id, from + 1, j);
    }
}

/// Whether the settings leave a package out.
pub open spec fn leaves_package_out(view: CrateSubplannerView, package: PackageView) -> bool {
    view.crate_settings matches Some(settings) && settings.skipped_deps.contains(
        package.name + "-"@ + package.version,
    )
}

/// Whether a platform matches this target.
pub open spec fn matches_triple(repr: Text, t: BazelTripleView) -> bool {
    platform_matches(repr, t.triple, t.cfgs)
}

/// Whether dependencies for a platform are wanted: those for all platforms are; for the one target
/// that is planned for, those for platforms that match it; else those for platforms that match a
/// supported target, or all.
pub open spec fn is_wanted_platform(view: CrateSubplannerView, target: Option<Text>) -> bool {
    target matches Some(repr) ==> {
        let triples = view.facts.bazel_triples;
        if view.platform_details is Some && view.settings.target is Some {
            platform_matches(repr, view.settings.target->Some_0, view.platform_details->Some_0.attrs)
        } else {
            &&& platform_reads(repr)
            &&& {
                ||| exists|t: int|
                    0 <= t < triples.len() && matches_triple(repr, #[trigger] triples[t])
                ||| forall|t: int|
                    0 <= t < triples.len() ==> matches_triple(repr, #[trigger] triples[t])
            }
        }
    }
}

/// Whether the crate's manifest declares a dependency on this package under another name.
pub open spec fn declares_rename(krate: PackageView, package: PackageView) -> bool {
    exists|j: int|
        0 <= j < krate.dependencies.len() && {
            let declared = #[trigger] krate.dependencies[j];
            &&& declared.name == package.name
            &&& version_req_matches(declared.req, package.version)
            &&& declared.source == (match package.source {
                Some(source) => Some(source.repr),
                None => None,
            })
            &&& declared.rename is Some
        }
}

/// The Bazel label of a package.
pub open spec fn label_of(settings: RazeSettingsView, package: PackageView) -> Text {
    let path = if settings.genmode == GenMode::Remote {
        "@"@ + (settings.gen_workspace_prefix + "__"@ + sanitized(package.name) + "__"@ + sanitized(
            package.version,
        )) + "//"@
    } else if "//"@.is_suffix_of(settings.workspace_path) {
        settings.workspace_path + "vendor/"@ + (package.name + "-"@ + package.version)
    } else {
        settings.workspace_path + "/"@ + "vendor/"@ + (package.name + "-"@ + package.version)
    };
    path + ":"@ + sanitized(package.name)
}

/// A package as something that Bazel can build.
pub open spec fn as_buildable(
    settings: RazeSettingsView,
    package: PackageView,
) -> BuildableDependencyView {
    BuildableDependencyView {
        buildable_target: label_of(settings, package),
        name: package.name,
        version: package.version,
        is_proc_macro: exists|t: int|
            0 <= t < package.targets.len() && (#[trigger] package.targets[t]).crate_types.contains(
                "proc-macro"@,
            ),
    }
}

/// The alias of a package under this name.
pub open spec fn as_alias(
    settings: RazeSettingsView,
    package: PackageView,
    name: Text,
) -> DependencyAliasView {
    DependencyAliasView { target: label_of(settings, package), alias: sanitized(name) }
}

/// One of the lists of dependencies in a context.
pub enum DependencyList {
    Dependencies,
    ProcMacros,
    BuildDependencies,
    BuildProcMacros,
    DevDependencies,
}

/// What stands in a list.
pub open spec fn listed(set: CrateDependencyContextView, list: DependencyList) -> Seq<
    BuildableDependencyView,
> {
    match list {
        DependencyList::Dependencies => set.dependencies,
        DependencyList::ProcMacros => set.proc_macro_dependencies,
        DependencyList::BuildDependencies => set.build_dependencies,
        DependencyList::BuildProcMacros => set.build_proc_macro_dependencies,
        DependencyList::DevDependencies => set.dev_dependencies,
    }
}

/// Whether a dependency that is needed for `kind` belongs in a list. One that binds a system library
/// belongs in two.
pub open spec fn belongs_in(
    list: DependencyList,
    kind: DependencyKind,
    dep: BuildableDependencyView,
) -> bool {
    match list {
        DependencyList::Dependencies => kind == DependencyKind::Normal && !dep.is_proc_macro,
        DependencyList::ProcMacros => kind == DependencyKind::Normal && dep.is_proc_macro,
        DependencyList::BuildDependencies => !dep.is_proc_macro && (kind == DependencyKind::Build
            || kind == DependencyKind::Normal && "-sys"@.is_suffix_of(dep.name)),
        DependencyList::BuildProcMacros => kind == DependencyKind::Build && dep.is_proc_macro,
        DependencyList::DevDependencies => kind == DependencyKind::Development,
    }
}

/// How often a dependency stands in a list.
pub open spec fn times_listed(
    set: CrateDependencyContextView,
    list: DependencyList,
    dep: BuildableDependencyView,
) -> nat {
    listed(set, list).to_multiset().count(dep)
}

/// How many of these uses of a package are for this platform and belong in this list.
pub open spec fn uses_of_package(
    kinds: Seq<DepKindInfoView>,
    target: Option<Text>,
    list: DependencyList,
    dep: BuildableDependencyView,
) -> nat
    decreases kinds.len(),
{
    if kinds.len() == 0 {
        0
    } else {
        uses_of_package(kinds.drop_last(), target, list, dep) + if kinds.last().target == target
            && belongs_in(list, kinds.last().kind, dep) {
            1nat
        } else {
            0nat
        }
    }
}

/// How many uses of these dependencies are of `dep`, for this platform, and belong in this list.
/// Dependencies that the settings leave out are not used.
pub open spec fn uses_of(
    view: CrateSubplannerView,
    deps: Seq<NodeDepView>,
    target: Option<Text>,
    list: DependencyList,
    dep: BuildableDependencyView,
) -> nat
    decreases deps.len(),
{
    if deps.len() == 0 {
        0
    } else {
        let package = first_with_id(view.catalog.packages, deps.last().pkg);
        uses_of(view, deps.drop_last(), target, list, dep) + if !leaves_package_out(view, package)
            && as_buildable(view.settings, package) == dep {
            uses_of_package(deps.last().dep_kinds, target, list, dep)
        } else {
            0nat
        }
    }
}

/// Whether the `k`th use of the `i`th dependency is wanted.
pub open spec fn is_wanted_use(view: CrateSubplannerView, i: int, k: int) -> bool {
    &&& 0 <= i < view.node.deps.len()
    &&& 0 <= k < view.node.deps[i].dep_kinds.len()
    &&& !leaves_package_out(
        view,
        first_with_id(view.catalog.packages, view.node.deps[i].pkg),
    )
    &&& is_wanted_platform(view, view.node.deps[i].dep_kinds[k].target)
}

/// Whether the `k`th use of the `i`th dependency is wanted, for this platform, and of a package that is
/// renamed, so that it has this alias.
pub open spec fn is_renamed_use(
    view: CrateSubplannerView,
    i: int,
    k: int,
    target: Option<Text>,
    alias: DependencyAliasView,
) -> bool {
    let package = first_with_id(view.catalog.packages, view.node.deps[i].pkg);
    &&& is_wanted_use(view, i, k)
    &&& view.node.deps[i].dep_kinds[k].target == target
    &&& declares_rename(view.entry.package, package)
    &&& alias == as_alias(view.settings, package, view.node.deps[i].name)
}

/// Whether the `k`th use of the `i`th dependency cannot be accepted: nobody said where its sources are,
/// or what it is needed for, or a use that comes before has its alias already.
pub open spec fn is_refused_use(view: CrateSubplannerView, i: int, k: int) -> bool {
    let package = first_with_id(view.catalog.packages, view.node.deps[i].pkg);
    let kind = view.node.deps[i].dep_kinds[k];
    &&& is_wanted_use(view, i, k)
    &&& {
        ||| view.settings.genmode == GenMode::Unspecified
        ||| kind.kind == DependencyKind::Unknown
        ||| declares_rename(view.entry.package, package) && exists|a: int, b: int|
            (a < i || a == i && b < k) && #[trigger] is_renamed_use(
                view,
                a,
                b,
                kind.target,
                as_alias(view.settings, package, view.node.deps[i].name),
            )
    }
}

proof fn lemma_wanted_platform(view: CrateSubplannerView, target: Option<Text>)
    ensures
        view.is_targetted(target) == is_wanted_platform(view, target),
{
    if target is Some {
        let repr = target->Some_0;
        let triples = view.facts.bazel_triples;
        assert(forall|t: int|
            0 <= t < triples.len() ==> triple_matches(repr, #[trigger] triples[t])
                == matches_triple(repr, triples[t]));
        if matches_some_triple(repr, triples) {
            let t = choose|t: int|
                0 <= t < triples.len() && triple_matches(repr, #[trigger] triples[t]);
            assert(matches_triple(repr, triples[t]));
        }
        if exists|t: int| 0 <= t < triples.len() && matches_triple(repr, #[trigger] triples[t]) {
            let t = choose|t: int|
                0 <= t < triples.len() && matches_triple(repr, #[trigger] triples[t]);
            assert(triple_matches(repr, triples[t]));
        }
    }
}

proof fn lemma_renamed(krate: PackageView, package: PackageView)
    ensures
        is_renamed_by(krate, package) == declares_rename(krate, package),
{
    if is_renamed_by(krate, package) {
        let j = choose|j: int|
            0 <= j < krate.dependencies.len() && renames(#[trigger] krate.dependencies[j], package);
        assert(krate.dependencies[j].rename is Some);
    }
    if declares_rename(krate, package) {
        let j = choose|j: int|
            0 <= j < krate.dependencies.len() && {
                let declared = #[trigger] krate.dependencies[j];
                &&& declared.name == package.name
                &&& version_req_matches(declared.req, package.version)
                &&& declared.source == (match package.source {
                    Some(source) => Some(source.repr),
                    None => None,
                })
                &&& declared.rename is Some
            };
        assert(renames(krate.dependencies[j], package));
    }
}

/// What is known of a package that the crate depends on, in terms of the planner.
spec fn is_known_package(view: CrateSubplannerView, package: PackageView) -> bool {
    view.package_with_id(package.id) == package
}

proof fn lemma_label(view: CrateSubplannerView, package: PackageView)
    requires
        is_known_package(view, package),
    ensures
        view.dep_label(package) is Ok <==> view.settings.genmode != GenMode::Unspecified,
        view.dep_label(package) matches Ok(label) ==> label == label_of(view.settings, package),
{
    match view.settings.genmode {
        GenMode::Remote => {},
        GenMode::Vendored => {},
        GenMode::Unspecified => {},
    }
}

proof fn lemma_proc_macro(settings: RazeSettingsView, package: PackageView)
    ensures
        as_buildable(settings, package).is_proc_macro == is_proc_macro_package(package),
{
    if is_proc_macro_package(package) {
        let t = choose|t: int|
            0 <= t < package.targets.len() && (#[trigger] package.targets[t]).crate_types.contains(
                "proc-macro"@,
            );
        assert(package.targets[t].crate_types.contains("proc-macro"@));
    }
}

proof fn lemma_count_push(s: Seq<BuildableDependencyView>, x: BuildableDependencyView)
    ensures
        forall|d: BuildableDependencyView| #[trigger]
            s.push(x).to_multiset().count(d) == s.to_multiset().count(d) + if d == x {
                1nat
            } else {
                0nat
            },
{
    broadcast use vstd::seq_lib::group_to_multiset_ensures;

    assert(s.push(x).to_multiset() =~= s.to_multiset().insert(x));
}

proof fn lemma_with_dependency(
    set: CrateDependencyContextView,
    kind: DependencyKind,
    dep: BuildableDependencyView,
)
    ensures
        with_dependency(set, kind, dep) is Some <==> kind != DependencyKind::Unknown,
        with_dependency(set, kind, dep) matches Some(after) ==> {
            &&& after.aliased_dependencies == set.aliased_dependencies
            &&& forall|list: DependencyList, d: BuildableDependencyView| #[trigger]
                times_listed(after, list, d) == times_listed(set, list, d) + if d == dep
                    && belongs_in(list, kind, d) {
                    1nat
                } else {
                    0nat
                }
        },
{
    lemma_count_push(set.dependencies, dep);
    lemma_count_push(set.proc_macro_dependencies, dep);
    lemma_count_push(set.build_dependencies, dep);
    lemma_count_push(set.build_proc_macro_dependencies, dep);
    lemma_count_push(set.dev_dependencies, dep);
}

proof fn lemma_processed(
    view: CrateSubplannerView,
    set: CrateDependencyContextView,
    name: Text,
    kind: DependencyKind,
    package: PackageView,
)
    requires
        is_known_package(view, package),
    ensures
        ({
            let (after, accepted) = view.processed(set, name, kind, package);
            let renamed = declares_rename(view.entry.package, package);
            let alias = as_alias(view.settings, package, name);
            &&& accepted is Ok <==> {
                &&& view.settings.genmode != GenMode::Unspecified
                &&& kind != DependencyKind::Unknown
                &&& !(renamed && set.aliased_dependencies.contains(alias))
            }
            &&& accepted is Ok ==> {
                &&& forall|list: DependencyList, d: BuildableDependencyView| #[trigger]
                    times_listed(after, list, d) == times_listed(set, list, d) + if d
                        == as_buildable(view.settings, package) && belongs_in(list, kind, d) {
                        1nat
                    } else {
                        0nat
                    }
                &&& forall|a: DependencyAliasView| #[trigger]
                    after.aliased_dependencies.contains(a) <==> set.aliased_dependencies.contains(a)
                        || renamed && a == alias
            }
        }),
{
    lemma_label(view, package);
    lemma_renamed(view.entry.package, package);
    if view.dep_label(package) is Ok {
        let dep = as_buildable(view.settings, package);
        let alias = as_alias(view.settings, package, name);
        lemma_proc_macro(view.settings, package);
        lemma_with_dependency(set, kind, dep);
        if with_dependency(set, kind, dep) is Some {
            let lists = with_dependency(set, kind, dep)->Some_0;
            let after = view.processed(set, name, kind, package).0;
            lemma_inserted_in_place::<DependencyAlias>(lists.aliased_dependencies, alias);
            assert forall|list: DependencyList, d: BuildableDependencyView| #[trigger]
                times_listed(after, list, d) == times_listed(lists, list, d) by {
                assert(listed(after, list) == listed(lists, list));
            }
        }
    }
}

/// Whether there is a set for this platform.
spec fn has_set(sets: Seq<PlatformDepsView>, target: Option<Text>) -> bool {
    exists|i: int| 0 <= i < sets.len() && (#[trigger] sets[i]).target == target
}

proof fn lemma_set_for_with_set(
    sets: Seq<PlatformDepsView>,
    target: Option<Text>,
    deps: CrateDependencyContextView,
    other: Option<Text>,
)
    ensures
        set_for(with_set(sets, target, deps), other) == (if other == target {
            deps
        } else {
            set_for(sets, other)
        }),
        has_set(with_set(sets, target, deps), other) <==> has_set(sets, other) || other == target,
    decreases sets.len(),
{
    let r = with_set(sets, target, deps);
    reveal_with_fuel(set_for, 2);
    if sets.len() == 0 {
        assert(r.drop_first() =~= Seq::empty());
        assert(r[0].target == target);
    } else {
        let rest = sets.drop_first();
        assert(has_set(sets, other) <==> sets[0].target == other || has_set(rest, other)) by {
            if has_set(sets, other) && sets[0].target != other {
                let i = choose|i: int| 0 <= i < sets.len() && (#[trigger] sets[i]).target == other;
                assert(rest[i - 1].target == other);
            }
            if has_set(rest, other) {
                let i = choose|i: int| 0 <= i < rest.len() && (#[trigger] rest[i]).target == other;
                assert(sets[i + 1].target == other);
            }
        }
        let tail = r.drop_first();
        assert(has_set(r, other) <==> r[0].target == other || has_set(tail, other)) by {
            if has_set(r, other) && r[0].target != other {
                let i = choose|i: int| 0 <= i < r.len() && (#[trigger] r[i]).target == other;
                assert(tail[i - 1].target == other);
            }
            if has_set(tail, other) {
                let i = choose|i: int| 0 <= i < tail.len() && (#[trigger] tail[i]).target == other;
                assert(r[i + 1].target == other);
            }
        }
        if sets[0].target == target {
            assert(tail =~= rest);
        } else {
            lemma_set_for_with_set(rest, target, deps, other);
            assert(tail =~= with_set(rest, target, deps));
            assert(r[0] == sets[0]);
        }
    }
}

/// Whether the `k`th of these uses is wanted, and for this platform.
spec fn is_kind_for(
    view: CrateSubplannerView,
    kinds: Seq<DepKindInfoView>,
    k: int,
    target: Option<Text>,
) -> bool {
    0 <= k < kinds.len() && kinds[k].target == target && is_wanted_platform(view, target)
}

/// Whether one of these uses is wanted, and for this platform.
spec fn has_kind_for(
    view: CrateSubplannerView,
    kinds: Seq<DepKindInfoView>,
    target: Option<Text>,
) -> bool {
    exists|k: int| #[trigger] is_kind_for(view, kinds, k, target)
}

/// Whether the `k`th of these uses of a package cannot be accepted behind `sets`.
spec fn is_refused_kind(
    view: CrateSubplannerView,
    sets: Seq<PlatformDepsView>,
    name: Text,
    package: PackageView,
    kinds: Seq<DepKindInfoView>,
    k: int,
) -> bool {
    let alias = as_alias(view.settings, package, name);
    &&& is_kind_for(view, kinds, k, kinds[k].target)
    &&& {
        ||| view.settings.genmode == GenMode::Unspecified
        ||| kinds[k].kind == DependencyKind::Unknown
        ||| declares_rename(view.entry.package, package) && {
            ||| set_for(sets, kinds[k].target).aliased_dependencies.contains(alias)
            ||| exists|b: int| b < k && #[trigger] is_kind_for(view, kinds, b, kinds[k].target)
        }
    }
}

proof fn lemma_with_kinds(
    view: CrateSubplannerView,
    sets: Seq<PlatformDepsView>,
    name: Text,
    package: PackageView,
    kinds: Seq<DepKindInfoView>,
)
    requires
        is_known_package(view, package),
    ensures
        view.with_kinds(sets, name, package, kinds) is Ok <==> forall|k: int|
            !#[trigger] is_refused_kind(view, sets, name, package, kinds, k),
        view.with_kinds(sets, name, package, kinds) matches Ok(after) ==> {
            let dep = as_buildable(view.settings, package);
            &&& forall|t: Option<Text>, list: DependencyList, d: BuildableDependencyView| #[trigger]
                times_listed(set_for(after, t), list, d) == times_listed(set_for(sets, t), list, d)
                    + if d == dep && is_wanted_platform(view, t) {
                    uses_of_package(kinds, t, list, d)
                } else {
                    0nat
                }
            &&& forall|t: Option<Text>, a: DependencyAliasView| #[trigger]
                set_for(after, t).aliased_dependencies.contains(a) <==> {
                    ||| set_for(sets, t).aliased_dependencies.contains(a)
                    ||| declares_rename(view.entry.package, package) && a == as_alias(
                        view.settings,
                        package,
                        name,
                    ) && has_kind_for(view, kinds, t)
                }
            &&& forall|t: Option<Text>| #[trigger]
                has_set(after, t) <==> has_set(sets, t) || has_kind_for(view, kinds, t)
        },
    decreases kinds.len(),
{
    if kinds.len() > 0 {
        let front = kinds.drop_last();
        let last = kinds.last();
        let n = kinds.len() - 1;
        let dep = as_buildable(view.settings, package);
        let alias = as_alias(view.settings, package, name);
        let renamed = declares_rename(view.entry.package, package);
        lemma_with_kinds(view, sets, name, package, front);
        lemma_wanted_platform(view, last.target);
        assert(kinds[n] == last);
        assert forall|k: int, t: Option<Text>| #[trigger]
            is_kind_for(view, kinds, k, t) <==> is_kind_for(view, front, k, t) || k == n
                && last.target == t && is_wanted_platform(view, t) by {
            if 0 <= k < n {
                assert(front[k] == kinds[k]);
            }
        }
        assert forall|k: int| k != n implies is_refused_kind(view, sets, name, package, kinds, k)
            == #[trigger] is_refused_kind(view, sets, name, package, front, k) by {
            if 0 <= k < n {
                assert(front[k] == kinds[k]);
                let t = kinds[k].target;
                if exists|b: int| b < k && #[trigger] is_kind_for(view, kinds, b, t) {
                    let b = choose|b: int| b < k && #[trigger] is_kind_for(view, kinds, b, t);
                    assert(is_kind_for(view, front, b, t));
                }
                if exists|b: int| b < k && #[trigger] is_kind_for(view, front, b, t) {
                    let b = choose|b: int| b < k && #[trigger] is_kind_for(view, front, b, t);
                    assert(is_kind_for(view, kinds, b, t));
                }
            }
        }
        if view.with_kinds(sets, name, package, front) is Ok {
            let before = view.with_kinds(sets, name, package, front)->Ok_0;
            let set = set_for(before, last.target);
            assert forall|k: int| k != n implies !#[trigger] is_refused_kind(
                view,
                sets,
                name,
                package,
                kinds,
                k,
            ) by {
                assert(!is_refused_kind(view, sets, name, package, front, k));
            }
            if view.is_targetted(last.target) {
                lemma_processed(view, set, name, last.kind, package);
                assert(is_kind_for(view, kinds, n, last.target));
                assert((exists|b: int| b < n && #[trigger] is_kind_for(view, kinds, b, last.target))
                    == has_kind_for(view, front, last.target)) by {
                    if exists|b: int| b < n && #[trigger] is_kind_for(view, kinds, b, last.target) {
                        let b = choose|b: int|
                            b < n && #[trigger] is_kind_for(view, kinds, b, last.target);
                        assert(is_kind_for(view, front, b, last.target));
                    }
                    if exists|b: int| #[trigger] is_kind_for(view, front, b, last.target) {
                        let b = choose|b: int| #[trigger] is_kind_for(view, front, b, last.target);
                        assert(is_kind_for(view, kinds, b, last.target));
                    }
                }
                let (processed, accepted) = view.processed(set, name, last.kind, package);
                assert(accepted is Ok <==> !is_refused_kind(view, sets, name, package, kinds, n));
                if accepted is Ok {
                    let after = with_set(before, last.target, processed);
                    assert forall|t: Option<Text>| true implies {
                        &&& #[trigger] set_for(after, t) == (if t == last.target {
                            processed
                        } else {
                            set_for(before, t)
                        })
                        &&& has_set(after, t) <==> has_set(before, t) || t == last.target
                    } by {
                        lemma_set_for_with_set(before, last.target, processed, t);
                    }
                    assert forall|t: Option<Text>, list: DependencyList, d: BuildableDependencyView|

                        #[trigger] times_listed(set_for(after, t), list, d) == times_listed(
                            set_for(sets, t),
                            list,
                            d,
                        ) + if d == dep && is_wanted_platform(view, t) {
                            uses_of_package(kinds, t, list, d)
                        } else {
                            0nat
                        } by {
                        assert(times_listed(set_for(before, t), list, d) == times_listed(
                            set_for(sets, t),
                            list,
                            d,
                        ) + if d == dep && is_wanted_platform(view, t) {
                            uses_of_package(front, t, list, d)
                        } else {
                            0nat
                        });
                    }
                    assert forall|t: Option<Text>, a: DependencyAliasView| #[trigger]
                        set_for(after, t).aliased_dependencies.contains(a) <==> {
                            ||| set_for(sets, t).aliased_dependencies.contains(a)
                            ||| renamed && a == alias && has_kind_for(view, kinds, t)
                        } by {
                        lemma_some_kind(view, kinds, t);
                        assert(set_for(before, t).aliased_dependencies.contains(a) <==> {
                            ||| set_for(sets, t).aliased_dependencies.contains(a)
                            ||| renamed && a == alias && has_kind_for(view, front, t)
                        });
                    }
                    assert forall|t: Option<Text>| #[trigger]
                        has_set(after, t) <==> has_set(sets, t) || has_kind_for(view, kinds, t) by {
                        lemma_some_kind(view, kinds, t);
                        assert(set_for(after, t) == set_for(after, t));
                    }
                }
            } else {
                assert(!is_refused_kind(view, sets, name, package, kinds, n));
                assert forall|t: Option<Text>| #[trigger]
                    has_kind_for(view, kinds, t) == has_kind_for(view, front, t) by {
                    lemma_some_kind(view, kinds, t);
                }
            }
        } else {
            let k = choose|k: int| #[trigger] is_refused_kind(view, sets, name, package, front, k);
            assert(is_refused_kind(view, sets, name, package, kinds, k));
        }
    } else {
        assert forall|t: Option<Text>| !#[trigger] has_kind_for(view, kinds, t) by {}
    }
}

proof fn lemma_some_kind(
    view: CrateSubplannerView,
    kinds: Seq<DepKindInfoView>,
    target: Option<Text>,
)
    requires
        kinds.len() > 0,
    ensures
        (has_kind_for(view, kinds, target)) <==> {
            ||| has_kind_for(view, kinds.drop_last(), target)
            ||| kinds.last().target == target && is_wanted_platform(view, target)
        },
{
    let front = kinds.drop_last();
    let n = kinds.len() - 1;
    if has_kind_for(view, kinds, target) {
        let k = choose|k: int| #[trigger] is_kind_for(view, kinds, k, target);
        if k < n {
            assert(front[k] == kinds[k]);
            assert(is_kind_for(view, front, k, target));
        }
    }
    if has_kind_for(view, front, target) {
        let k = choose|k: int| #[trigger] is_kind_for(view, front, k, target);
        assert(front[k] == kinds[k]);
        assert(is_kind_for(view, kinds, k, target));
    }
    if kinds.last().target == target && is_wanted_platform(view, target) {
        assert(is_kind_for(view, kinds, n, target));
    }
}

/// Whether the `k`th use of the `i`th dependency is wanted, and for this platform.
pub open spec fn is_use_for(view: CrateSubplannerView, i: int, k: int, target: Option<Text>) -> bool {
    is_wanted_use(view, i, k) && view.node.deps[i].dep_kinds[k].target == target
}

/// Whether one of the first `n` dependencies has a use that is wanted, and for this platform.
pub open spec fn is_used_among(view: CrateSubplannerView, n: int, target: Option<Text>) -> bool {
    exists|i: int, k: int| i < n && #[trigger] is_use_for(view, i, k, target)
}

/// Whether one of the first `n` dependencies has a use that is wanted, for this platform, and with this
/// alias.
pub open spec fn is_renamed_among(
    view: CrateSubplannerView,
    n: int,
    target: Option<Text>,
    alias: DependencyAliasView,
) -> bool {
    exists|i: int, k: int| i < n && #[trigger] is_renamed_use(view, i, k, target, alias)
}

/// What is known of the sets of the first `n` dependencies.
spec fn are_the_uses(view: CrateSubplannerView, n: int, sets: Seq<PlatformDepsView>) -> bool {
    let deps = view.node.deps.take(n);
    &&& forall|t: Option<Text>, list: DependencyList, d: BuildableDependencyView| #[trigger]
        times_listed(set_for(sets, t), list, d) == if is_wanted_platform(view, t) {
            uses_of(view, deps, t, list, d)
        } else {
            0nat
        }
    &&& forall|t: Option<Text>, a: DependencyAliasView| #[trigger]
        set_for(sets, t).aliased_dependencies.contains(a) <==> is_renamed_among(view, n, t, a)
    &&& forall|t: Option<Text>| #[trigger] has_set(sets, t) <==> is_used_among(view, n, t)
}

proof fn lemma_one_more_dep(
    view: CrateSubplannerView,
    n: int,
    target: Option<Text>,
    alias: DependencyAliasView,
)
    requires
        0 <= n < view.node.deps.len(),
    ensures
        ({
            let dep = view.node.deps[n];
            let package = first_with_id(view.catalog.packages, dep.pkg);
            let used = !leaves_package_out(view, package) && has_kind_for(
                view,
                dep.dep_kinds,
                target,
            );
            &&& is_used_among(view, n + 1, target) <==> is_used_among(view, n, target) || used
            &&& is_renamed_among(view, n + 1, target, alias) <==> is_renamed_among(
                view,
                n,
                target,
                alias,
            ) || used && declares_rename(view.entry.package, package) && alias == as_alias(
                view.settings,
                package,
                dep.name,
            )
        }),
{
    let dep = view.node.deps[n];
    let package = first_with_id(view.catalog.packages, dep.pkg);
    if is_used_among(view, n + 1, target) {
        let (i, k) = choose|i: int, k: int| i < n + 1 && #[trigger] is_use_for(view, i, k, target);
        if i < n {
            assert(is_use_for(view, i, k, target));
        } else {
            assert(is_kind_for(view, dep.dep_kinds, k, target));
        }
    }
    if is_used_among(view, n, target) {
        let (i, k) = choose|i: int, k: int| i < n && #[trigger] is_use_for(view, i, k, target);
        assert(is_use_for(view, i, k, target));
    }
    if is_renamed_among(view, n + 1, target, alias) {
        let (i, k) = choose|i: int, k: int|
            i < n + 1 && #[trigger] is_renamed_use(view, i, k, target, alias);
        if i < n {
            assert(is_renamed_use(view, i, k, target, alias));
        } else {
            assert(is_kind_for(view, dep.dep_kinds, k, target));
        }
    }
    if is_renamed_among(view, n, target, alias) {
        let (i, k) = choose|i: int, k: int|
            i < n && #[trigger] is_renamed_use(view, i, k, target, alias);
        assert(is_renamed_use(view, i, k, target, alias));
    }
    if !leaves_package_out(view, package) && has_kind_for(view, dep.dep_kinds, target) {
        let k = choose|k: int| #[trigger] is_kind_for(view, dep.dep_kinds, k, target);
        assert(is_use_for(view, n, k, target));
        if declares_rename(view.entry.package, package) && alias == as_alias(
            view.settings,
            package,
            dep.name,
        ) {
            assert(is_renamed_use(view, n, k, target, alias));
        }
    }
}

proof fn lemma_refused(
    view: CrateSubplannerView,
    n: int,
    k: int,
    sets: Seq<PlatformDepsView>,
)
    requires
        0 <= n < view.node.deps.len(),
        are_the_uses(view, n, sets),
    ensures
        ({
            let dep = view.node.deps[n];
            let package = first_with_id(view.catalog.packages, dep.pkg);
            is_refused_use(view, n, k) <==> !leaves_package_out(view, package) && is_refused_kind(
                view,
                sets,
                dep.name,
                package,
                dep.dep_kinds,
                k,
            )
        }),
{
    let dep = view.node.deps[n];
    let package = first_with_id(view.catalog.packages, dep.pkg);
    let kinds = dep.dep_kinds;
    let alias = as_alias(view.settings, package, dep.name);
    if is_wanted_use(view, n, k) && declares_rename(view.entry.package, package) {
        let t = kinds[k].target;
        if exists|a: int, b: int|
            (a < n || a == n && b < k) && #[trigger] is_renamed_use(view, a, b, t, alias) {
            let (a, b) = choose|a: int, b: int|
                (a < n || a == n && b < k) && #[trigger] is_renamed_use(view, a, b, t, alias);
            if a < n {
                assert(is_renamed_among(view, n, t, alias));
                assert(set_for(sets, t).aliased_dependencies.contains(alias));
            } else {
                assert(is_kind_for(view, kinds, b, t));
            }
        }
        if set_for(sets, t).aliased_dependencies.contains(alias) {
            assert(is_renamed_among(view, n, t, alias));
            let (a, b) = choose|a: int, b: int|
                a < n && #[trigger] is_renamed_use(view, a, b, t, alias);
            assert(is_renamed_use(view, a, b, t, alias));
        }
        if exists|b: int| b < k && #[trigger] is_kind_for(view, kinds, b, t) {
            let b = choose|b: int| b < k && #[trigger] is_kind_for(view, kinds, b, t);
            assert(is_renamed_use(view, n, b, t, alias));
        }
    }
}

proof fn lemma_declared_deps(view: CrateSubplannerView, n: int)
    requires
        knows_every_dep(view),
        0 <= n <= view.node.deps.len(),
    ensures
        view.declared_deps(view.node.deps.take(n)) is Ok <==> forall|i: int, k: int|
            i < n ==> !#[trigger] is_refused_use(view, i, k),
        view.declared_deps(view.node.deps.take(n)) matches Ok(sets) ==> are_the_uses(view, n, sets),
    decreases n,
{
    let deps = view.node.deps.take(n);
    if n == 0 {
        assert(deps =~= Seq::empty());
        let sets: Seq<PlatformDepsView> = Seq::empty();
        broadcast use vstd::seq_lib::group_to_multiset_ensures;

        assert forall|t: Option<Text>, list: DependencyList, d: BuildableDependencyView| #[trigger]
            times_listed(set_for(sets, t), list, d) == 0 by {
            assert(listed(CrateDependencyContext::nothing(), list) =~= Seq::empty());
        }
    } else {
        let m = n - 1;
        let front = view.node.deps.take(m);
        let last = view.node.deps[m];
        let package = first_with_id(view.catalog.packages, last.pkg);
        assert(deps.drop_last() =~= front);
        assert(deps.last() == last);
        lemma_declared_deps(view, m);
        let j = choose|j: int| is_first_with_id(view.catalog.packages, view.node.deps[m].pkg, j);
        lemma_first_with_id(view.catalog, last.pkg, j);
        assert(package.id == last.pkg);
        assert(view.package_with_id(last.pkg) == package);
        assert(view.is_skipped(package) == leaves_package_out(view, package));
        if view.declared_deps(front) is Ok {
            let before = view.declared_deps(front)->Ok_0;
            assert forall|k: int| true implies (#[trigger] is_refused_use(view, m, k)
                <==> !leaves_package_out(view, package) && is_refused_kind(
                view,
                before,
                last.name,
                package,
                last.dep_kinds,
                k,
            )) by {
                lemma_refused(view, m, k, before);
            }
            assert((forall|i: int, k: int| i < n ==> !#[trigger] is_refused_use(view, i, k))
                <==> forall|k: int| !#[trigger] is_refused_use(view, m, k)) by {
                if forall|k: int| !#[trigger] is_refused_use(view, m, k) {
                    assert forall|i: int, k: int| i < n implies !#[trigger] is_refused_use(
                        view,
                        i,
                        k,
                    ) by {
                        if i == m {
                            assert(!is_refused_use(view, m, k));
                        }
                    }
                }
            }
            if view.is_skipped(package) {
                lemma_skipped_dep(view, m, before);
            } else {
                lemma_with_kinds(view, before, last.name, package, last.dep_kinds);
                if view.declared_deps(deps) is Err {
                    let k = choose|k: int| #[trigger]
                        is_refused_kind(view, before, last.name, package, last.dep_kinds, k);
                    assert(is_refused_use(view, m, k));
                } else {
                    assert forall|k: int| !#[trigger] is_refused_use(view, m, k) by {
                        assert(!is_refused_kind(
                            view,
                            before,
                            last.name,
                            package,
                            last.dep_kinds,
                            k,
                        ));
                    }
                    lemma_used_dep(view, m, before);
                }
            }
        } else {
            let (i, k) = choose|i: int, k: int| i < m && #[trigger] is_refused_use(view, i, k);
            assert(is_refused_use(view, i, k));
        }
    }
}

proof fn lemma_skipped_dep(view: CrateSubplannerView, m: int, sets: Seq<PlatformDepsView>)
    requires
        0 <= m < view.node.deps.len(),
        are_the_uses(view, m, sets),
        leaves_package_out(view, first_with_id(view.catalog.packages, view.node.deps[m].pkg)),
    ensures
        are_the_uses(view, m + 1, sets),
{
    let deps = view.node.deps.take(m + 1);
    assert(deps.drop_last() =~= view.node.deps.take(m));
    assert(deps.last() == view.node.deps[m]);
    assert forall|t: Option<Text>, a: DependencyAliasView| #[trigger]
        set_for(sets, t).aliased_dependencies.contains(a) <==> is_renamed_among(
            view,
            m + 1,
            t,
            a,
        ) by {
        lemma_one_more_dep(view, m, t, a);
    }
    assert forall|t: Option<Text>| #[trigger] has_set(sets, t) <==> is_used_among(
        view,
        m + 1,
        t,
    ) by {
        lemma_one_more_dep(view, m, t, as_alias(view.settings, view.entry.package, Seq::empty()));
    }
}

proof fn lemma_used_dep(view: CrateSubplannerView, m: int, before: Seq<PlatformDepsView>)
    requires
        0 <= m < view.node.deps.len(),
        are_the_uses(view, m, before),
        ({
            let dep = view.node.deps[m];
            let package = first_with_id(view.catalog.packages, dep.pkg);
            &&& is_known_package(view, package)
            &&& !leaves_package_out(view, package)
            &&& view.with_kinds(before, dep.name, package, dep.dep_kinds) is Ok
        }),
    ensures
        ({
            let dep = view.node.deps[m];
            let package = first_with_id(view.catalog.packages, dep.pkg);
            are_the_uses(
                view,
                m + 1,
                view.with_kinds(before, dep.name, package, dep.dep_kinds)->Ok_0,
            )
        }),
{
    let dep = view.node.deps[m];
    let package = first_with_id(view.catalog.packages, dep.pkg);
    let after = view.with_kinds(before, dep.name, package, dep.dep_kinds)->Ok_0;
    let deps = view.node.deps.take(m + 1);
    assert(deps.drop_last() =~= view.node.deps.take(m));
    assert(deps.last() == dep);
    lemma_with_kinds(view, before, dep.name, package, dep.dep_kinds);
    assert forall|t: Option<Text>, list: DependencyList, d: BuildableDependencyView| #[trigger]
        times_listed(set_for(after, t), list, d) == if is_wanted_platform(view, t) {
            uses_of(view, deps, t, list, d)
        } else {
            0nat
        } by {
        assert(times_listed(set_for(before, t), list, d) == if is_wanted_platform(view, t) {
            uses_of(view, view.node.deps.take(m), t, list, d)
        } else {
            0nat
        });
    }
    assert forall|t: Option<Text>, a: DependencyAliasView| #[trigger]
        set_for(after, t).aliased_dependencies.contains(a) <==> is_renamed_among(
            view,
            m + 1,
            t,
            a,
        ) by {
        lemma_one_more_dep(view, m, t, a);
        assert(set_for(before, t).aliased_dependencies.contains(a) <==> is_renamed_among(
            view,
            m,
            t,
            a,
        ));
    }
    assert forall|t: Option<Text>| #[trigger] has_set(after, t) <==> is_used_among(
        view,
        m + 1,
        t,
    ) by {
        lemma_one_more_dep(view, m, t, as_alias(view.settings, package, dep.name));
        assert(has_set(before, t) <==> is_used_among(view, m, t));
    }
}

/// Whether a platform matches this target, and the settings name it, where they name targets.
pub open spec fn is_chosen(view: CrateSubplannerView, repr: Text, t: BazelTripleView) -> bool {
    matches_triple(repr, t) && (view.settings.targets matches Some(names) ==> names.contains(
        t.triple,
    ))
}

/// Whether a platform matches a target that the settings name, where they name targets.
pub open spec fn has_target(view: CrateSubplannerView, repr: Text) -> bool {
    exists|i: int|
        0 <= i < view.facts.bazel_triples.len() && is_chosen(
            view,
            repr,
            #[trigger] view.facts.bazel_triples[i],
        )
}

proof fn lemma_chosen_triples(view: CrateSubplannerView, repr: Text)
    ensures
        matching_triples(repr, view.facts.bazel_triples, view.settings.targets)
            == view.facts.bazel_triples.filter(
            |t: BazelTripleView| is_chosen(view, repr, t),
        ).map_values(|t: BazelTripleView| t.triple),
        matching_triples(repr, view.facts.bazel_triples, view.settings.targets).len() > 0
            <==> has_target(view, repr),
{
    let triples = view.facts.bazel_triples;
    let chosen = |t: BazelTripleView| is_chosen(view, repr, t);
    let kept = triples.filter(chosen);
    assert(chosen =~= |t: BazelTripleView| triple_chosen(repr, view.settings.targets, t));
    if has_target(view, repr) {
        let i = choose|i: int|
            0 <= i < triples.len() && is_chosen(view, repr, #[trigger] triples[i]);
        triples.lemma_filter_contains(chosen, i);
    }
    if kept.len() > 0 {
        let names = matching_triples(repr, triples, view.settings.targets);
        assert(names.contains(names[0]));
        lemma_matching_triples(repr, triples, view.settings.targets, names[0]);
        let i = choose|i: int|
            0 <= i < triples.len() && (#[trigger] triples[i]).triple == names[0] && triple_chosen(
                repr,
                view.settings.targets,
                triples[i],
            );
        assert(is_chosen(view, repr, triples[i]));
    }
}

proof fn lemma_set_at(sets: Seq<PlatformDepsView>, j: int)
    requires
        0 <= j < sets.len(),
        forall|h: int, k: int|
            0 <= h < k < sets.len() ==> (#[trigger] sets[h]).target != (#[trigger] sets[k]).target,
    ensures
        set_for(sets, sets[j].target) == sets[j].deps,
    decreases sets.len(),
{
    if j > 0 {
        assert(sets[0].target != sets[j].target);
        let rest = sets.drop_first();
        assert forall|h: int, k: int| 0 <= h < k < rest.len() implies (#[trigger] rest[h]).target
            != (#[trigger] rest[k]).target by {
            assert(sets[h + 1].target != sets[k + 1].target);
        }
        lemma_set_at(rest, j - 1);
    }
}

proof fn lemma_targeted_set_is_there(
    view: CrateSubplannerView,
    sets: Seq<PlatformDepsView>,
    j: int,
)
    requires
        0 <= j < sets.len(),
        sets[j].target is Some,
        has_target(view, sets[j].target->Some_0),
    ensures
        view.targeted_sets(sets).contains(view.targeted_set(sets[j])),
    decreases sets.len(),
{
    let r = view.targeted_sets(sets);
    let x = view.targeted_set(sets[j]);
    lemma_chosen_triples(view, sets[j].target->Some_0);
    if j < sets.len() - 1 {
        let front = sets.drop_last();
        lemma_targeted_set_is_there(view, front, j);
        let before = view.targeted_sets(front);
        let i = choose|i: int| 0 <= i < before.len() && before[i] == x;
        assert(r[i] == x);
    } else {
        assert(r.last() == x);
    }
}

proof fn lemma_sorted_counts(set: CrateDependencyContextView)
    ensures
        forall|list: DependencyList, d: BuildableDependencyView| #[trigger]
            times_listed(with_sorted_lists(set), list, d) == times_listed(set, list, d),
{
    lemma_stable_sorted_keeps_items::<BuildableDependency>(set.dependencies);
    lemma_stable_sorted_keeps_items::<BuildableDependency>(set.proc_macro_dependencies);
    lemma_stable_sorted_keeps_items::<BuildableDependency>(set.build_dependencies);
    lemma_stable_sorted_keeps_items::<BuildableDependency>(set.build_proc_macro_dependencies);
    lemma_stable_sorted_keeps_items::<BuildableDependency>(set.dev_dependencies);
}

proof fn lemma_deps(view: CrateSubplannerView)
    requires
        knows_every_dep(view),
    ensures
        view.deps() is Ok <==> forall|i: int, k: int| !#[trigger] is_refused_use(view, i, k),
        view.deps() matches Ok(sets) ==> are_the_uses(view, view.node.deps.len() as int, sets),
{
    let n = view.node.deps.len() as int;
    assert(view.node.deps.take(n) =~= view.node.deps);
    lemma_declared_deps(view, n);
    if forall|i: int, k: int| i < n ==> !#[trigger] is_refused_use(view, i, k) {
        assert forall|i: int, k: int| !#[trigger] is_refused_use(view, i, k) by {}
    }
    if view.deps() is Ok {
        let declared = view.declared_deps(view.node.deps)->Ok_0;
        let sets = view.deps()->Ok_0;
        assert forall|t: Option<Text>, list: DependencyList, d: BuildableDependencyView| #[trigger]
            times_listed(set_for(sets, t), list, d) == times_listed(
                set_for(declared, t),
                list,
                d,
            ) by {
            lemma_set_for_sorted(declared, t);
            lemma_sorted_counts(set_for(declared, t));
        }
        assert forall|t: Option<Text>, a: DependencyAliasView| #[trigger]
            set_for(sets, t).aliased_dependencies.contains(a) <==> is_renamed_among(
                view,
                n,
                t,
                a,
            ) by {
            lemma_set_for_sorted(declared, t);
            assert(set_for(declared, t).aliased_dependencies.contains(a) <==> is_renamed_among(
                view,
                n,
                t,
                a,
            ));
        }
        assert forall|t: Option<Text>| #[trigger] has_set(sets, t) <==> is_used_among(
            view,
            n,
            t,
        ) by {
            assert(has_set(declared, t) <==> is_used_among(view, n, t));
            if has_set(sets, t) {
                let i = choose|i: int| 0 <= i < sets.len() && (#[trigger] sets[i]).target == t;
                assert(declared[i].target == t);
            }
            if has_set(declared, t) {
                let i = choose|i: int|
                    0 <= i < declared.len() && (#[trigger] declared[i]).target == t;
                assert(sets[i].target == t);
            }
        }
    }
}

/// The dependencies of a crate can be listed exactly if each of its uses can be accepted.
pub proof fn lemma_deps_are_listed_unless_refused(view: CrateSubplannerView)
    requires
        knows_every_dep(view),
    ensures
        view.deps() is Ok <==> forall|i: int, k: int| !#[trigger] is_refused_use(view, i, k),
{
    lemma_deps(view);
}

/// The dependencies for all platforms in a context are the uses that name no platform: each stands in
/// the lists that it belongs to, as often as it is used, and nothing else does. The aliases are those of
/// the renamed ones, each once.
pub proof fn lemma_default_deps_are_the_uses(
    view: CrateSubplannerView,
    list: DependencyList,
    dep: BuildableDependencyView,
    alias: DependencyAliasView,
)
    requires
        knows_every_dep(view),
        view.context() is Ok,
    ensures
        ({
            let set = view.context()->Ok_0.default_deps;
            &&& times_listed(set, list, dep) == uses_of(view, view.node.deps, None, list, dep)
            &&& set.aliased_dependencies.contains(alias) <==> exists|i: int, k: int| #[trigger]
                is_renamed_use(view, i, k, None, alias)
            &&& set.aliased_dependencies.no_duplicates()
        }),
{
    let n = view.node.deps.len() as int;
    lemma_deps(view);
    lemma_context_deps_tidy(view);
    assert(view.node.deps.take(n) =~= view.node.deps);
    let sets = view.deps()->Ok_0;
    assert(times_listed(set_for(sets, None), list, dep) == uses_of(
        view,
        view.node.deps,
        None,
        list,
        dep,
    ));
    assert(set_for(sets, None).aliased_dependencies.contains(alias) <==> is_renamed_among(
        view,
        n,
        None,
        alias,
    ));
    if exists|i: int, k: int| #[trigger] is_renamed_use(view, i, k, None, alias) {
        let (i, k) = choose|i: int, k: int| #[trigger] is_renamed_use(view, i, k, None, alias);
        assert(i < n && is_renamed_use(view, i, k, None, alias));
    }
    if is_renamed_among(view, n, None, alias) {
        let (i, k) = choose|i: int, k: int|
            i < n && #[trigger] is_renamed_use(view, i, k, None, alias);
        assert(is_renamed_use(view, i, k, None, alias));
    }
}

/// A context has dependencies for a single platform exactly if a use for it is wanted and it matches a
/// target that the settings name, where they name targets. The targets are all that it matches, in the
/// order of the table. The uses for the platform stand in the lists that they belong to, as often as
/// they are used, and nothing else does; the aliases are those of the renamed ones, each once.
pub proof fn lemma_targeted_deps_are_the_uses(
    view: CrateSubplannerView,
    repr: Text,
    list: DependencyList,
    dep: BuildableDependencyView,
    alias: DependencyAliasView,
)
    requires
        knows_every_dep(view),
        view.context() is Ok,
    ensures
        ({
            let targeted = view.context()->Ok_0.targeted_deps;
            &&& (exists|e: int| 0 <= e < targeted.len() && (#[trigger] targeted[e]).target == repr)
                <==> has_target(view, repr) && exists|i: int, k: int| #[trigger]
                is_use_for(view, i, k, Some(repr))
            &&& forall|e: int|
                0 <= e < targeted.len() && (#[trigger] targeted[e]).target == repr ==> {
                    let set = targeted[e].deps;
                    &&& targeted[e].platform_targets == view.facts.bazel_triples.filter(
                        |t: BazelTripleView| is_chosen(view, repr, t),
                    ).map_values(|t: BazelTripleView| t.triple)
                    &&& times_listed(set, list, dep) == uses_of(
                        view,
                        view.node.deps,
                        Some(repr),
                        list,
                        dep,
                    )
                    &&& set.aliased_dependencies.contains(alias) <==> exists|i: int, k: int|
                     #[trigger]
                        is_renamed_use(view, i, k, Some(repr), alias)
                    &&& set.aliased_dependencies.no_duplicates()
                }
        }),
{
    let n = view.node.deps.len() as int;
    let t = Some(repr);
    let sets = view.deps()->Ok_0;
    let declared = view.targeted_sets(sets);
    let targeted = view.context()->Ok_0.targeted_deps;
    assert(view.node.deps.take(n) =~= view.node.deps);
    lemma_deps(view);
    lemma_deps_tidy(view);
    lemma_context_deps_tidy(view);
    lemma_targeted_sets(view, sets);
    lemma_stable_sorted_keeps_items::<CrateTargetedDepContext>(declared);
    lemma_chosen_triples(view, repr);
    assert(has_set(sets, t) <==> is_used_among(view, n, t));
    assert(times_listed(set_for(sets, t), list, dep) == if is_wanted_platform(view, t) {
        uses_of(view, view.node.deps, t, list, dep)
    } else {
        0nat
    });
    assert(set_for(sets, t).aliased_dependencies.contains(alias) <==> is_renamed_among(
        view,
        n,
        t,
        alias,
    ));
    assert(is_renamed_among(view, n, t, alias) <==> exists|i: int, k: int| #[trigger]
        is_renamed_use(view, i, k, t, alias)) by {
        if exists|i: int, k: int| #[trigger] is_renamed_use(view, i, k, t, alias) {
            let (i, k) = choose|i: int, k: int| #[trigger] is_renamed_use(view, i, k, t, alias);
            assert(i < n && is_renamed_use(view, i, k, t, alias));
        }
        if is_renamed_among(view, n, t, alias) {
            let (i, k) = choose|i: int, k: int|
                i < n && #[trigger] is_renamed_use(view, i, k, t, alias);
            assert(is_renamed_use(view, i, k, t, alias));
        }
    }
    assert(is_used_among(view, n, t) <==> exists|i: int, k: int| #[trigger]
        is_use_for(view, i, k, t)) by {
        if exists|i: int, k: int| #[trigger] is_use_for(view, i, k, t) {
            let (i, k) = choose|i: int, k: int| #[trigger] is_use_for(view, i, k, t);
            assert(i < n && is_use_for(view, i, k, t));
        }
        if is_used_among(view, n, t) {
            let (i, k) = choose|i: int, k: int| i < n && #[trigger] is_use_for(view, i, k, t);
            assert(is_use_for(view, i, k, t));
        }
    }
    assert forall|e: int| 0 <= e < targeted.len() && (#[trigger] targeted[e]).target
        == repr implies {
        &&& has_set(sets, t)
        &&& is_wanted_platform(view, t)
        &&& targeted[e].platform_targets.len() > 0
        &&& targeted[e].platform_targets == matching_triples(
            repr,
            view.facts.bazel_triples,
            view.settings.targets,
        )
        &&& targeted[e].deps == set_for(sets, t)
    } by {
        assert(targeted.contains(targeted[e]));
        let d = choose|d: int| 0 <= d < declared.len() && declared[d] == targeted[e];
        let j = choose|j: int|
            0 <= j < sets.len() && (#[trigger] sets[j]).target is Some && declared[d]
                == view.targeted_set(sets[j]) && declared[d].platform_targets.len() > 0;
        assert(sets[j].target == t);
        lemma_set_at(sets, j);
        lemma_wanted_platform(view, t);
    }
    if has_target(view, repr) && has_set(sets, t) {
        let j = choose|j: int| 0 <= j < sets.len() && (#[trigger] sets[j]).target == t;
        lemma_targeted_set_is_there(view, sets, j);
        assert(targeted.contains(view.targeted_set(sets[j])));
        let e = choose|e: int|
            0 <= e < targeted.len() && targeted[e] == view.targeted_set(sets[j]);
        assert(targeted[e].target == repr);
    }
    if exists|e: int| 0 <= e < targeted.len() && (#[trigger] targeted[e]).target == repr {
        let e = choose|e: int| 0 <= e < targeted.len() && (#[trigger] targeted[e]).target == repr;
        assert(has_set(sets, t));
        assert(targeted[e].platform_targets.len() > 0);
    }
}

proof fn lemma_use_counts(
    view: CrateSubplannerView,
    n: int,
    i: int,
    k: int,
    list: DependencyList,
)
    requires
        i < n <= view.node.deps.len(),
        is_wanted_use(view, i, k),
        belongs_in(
            list,
            view.node.deps[i].dep_kinds[k].kind,
            as_buildable(
                view.settings,
                first_with_id(view.catalog.packages, view.node.deps[i].pkg),
            ),
        ),
    ensures
        uses_of(
            view,
            view.node.deps.take(n),
            view.node.deps[i].dep_kinds[k].target,
            list,
            as_buildable(
                view.settings,
                first_with_id(view.catalog.packages, view.node.deps[i].pkg),
            ),
        ) > 0,
    decreases n,
{
    let deps = view.node.deps.take(n);
    assert(deps.drop_last() =~= view.node.deps.take(n - 1));
    assert(deps.last() == view.node.deps[n - 1]);
    if i < n - 1 {
        lemma_use_counts(view, n - 1, i, k, list);
    } else {
        let kinds = view.node.deps[i].dep_kinds;
        lemma_kind_counts(
            kinds,
            kinds.len() as int,
            k,
            list,
            as_buildable(
                view.settings,
                first_with_id(view.catalog.packages, view.node.deps[i].pkg),
            ),
        );
        assert(kinds.take(kinds.len() as int) =~= kinds);
    }
}

proof fn lemma_kind_counts(
    kinds: Seq<DepKindInfoView>,
    n: int,
    k: int,
    list: DependencyList,
    dep: BuildableDependencyView,
)
    requires
        0 <= k < n <= kinds.len(),
        belongs_in(list, kinds[k].kind, dep),
    ensures
        uses_of_package(kinds.take(n), kinds[k].target, list, dep) > 0,
    decreases n,
{
    let front = kinds.take(n);
    assert(front.drop_last() =~= kinds.take(n - 1));
    assert(front.last() == kinds[n - 1]);
    if k < n - 1 {
        lemma_kind_counts(kinds, n - 1, k, list, dep);
    }
}

/// Every use that is wanted and names no platform stands in the dependencies for all platforms, in
/// each list that it belongs to. One for a platform that matches a target which the settings name stands
/// in the dependencies for that platform, in each list that it belongs to.
pub proof fn lemma_every_use_is_listed(
    view: CrateSubplannerView,
    i: int,
    k: int,
    list: DependencyList,
)
    requires
        knows_every_dep(view),
        view.context() is Ok,
        is_wanted_use(view, i, k),
        belongs_in(
            list,
            view.node.deps[i].dep_kinds[k].kind,
            as_buildable(
                view.settings,
                first_with_id(view.catalog.packages, view.node.deps[i].pkg),
            ),
        ),
    ensures
        ({
            let context = view.context()->Ok_0;
            let dep = as_buildable(
                view.settings,
                first_with_id(view.catalog.packages, view.node.deps[i].pkg),
            );
            match view.node.deps[i].dep_kinds[k].target {
                None => listed(context.default_deps, list).contains(dep),
                Some(repr) => has_target(view, repr) ==> exists|e: int|
                    0 <= e < context.targeted_deps.len() && (
                    #[trigger] context.targeted_deps[e]).target == repr && listed(
                        context.targeted_deps[e].deps,
                        list,
                    ).contains(dep),
            }
        }),
{
    broadcast use vstd::seq_lib::group_to_multiset_ensures;

    let n = view.node.deps.len() as int;
    let context = view.context()->Ok_0;
    let package = first_with_id(view.catalog.packages, view.node.deps[i].pkg);
    let dep = as_buildable(view.settings, package);
    let alias = as_alias(view.settings, package, view.node.deps[i].name);
    let t = view.node.deps[i].dep_kinds[k].target;
    assert(view.node.deps.take(n) =~= view.node.deps);
    lemma_use_counts(view, n, i, k, list);
    if t is Some {
        let repr = t->Some_0;
        if has_target(view, repr) {
            lemma_targeted_deps_are_the_uses(view, repr, list, dep, alias);
            assert(is_use_for(view, i, k, t));
            let e = choose|e: int|
                0 <= e < context.targeted_deps.len() && (
                #[trigger] context.targeted_deps[e]).target == repr;
            assert(times_listed(context.targeted_deps[e].deps, list, dep) > 0);
            assert(listed(context.targeted_deps[e].deps, list).contains(dep));
        }
    } else {
        lemma_default_deps_are_the_uses(view, list, dep, alias);
        assert(times_listed(context.default_deps, list, dep) > 0);
    }
}

/// Why a use of a package is refused: nobody said how sources get into the workspace; nobody knows
/// what it is needed for; or its alias is taken.
pub open spec fn refusal(
    view: CrateSubplannerView,
    package: PackageView,
    name: Text,
    kind: DependencyKind,
) -> RazeErrorView {
    if view.settings.genmode == GenMode::Unspecified {
        RazeErrorView::Generic("Unable to determine the path of a crate. GenMode unspecified"@)
    } else if kind == DependencyKind::Unknown {
        RazeErrorView::Planning {
            dependency_name_opt: Some(package.name),
            message: "Unhandlable dependency type Unknown on "@ + package.name + " detected! "@
                + "Please file an issue at github.com/google/cargo-raze with details."@,
        }
    } else {
        RazeErrorView::Planning {
            dependency_name_opt: Some(package.name),
            message: "Duplicated renamed package "@ + name,
        }
    }
}

/// A use that is looked at is accepted unless nobody said how sources get into the workspace, nobody
/// knows what it is needed for, or its alias is taken. One that is accepted stands once more in each list
/// that it belongs to, and a renamed one has its alias. One whose alias is taken is listed all the same;
/// one that is refused for another reason leaves everything as it was.
pub proof fn lemma_process_dep(
    view: CrateSubplannerView,
    set: CrateDependencyContextView,
    name: Text,
    kind: DependencyKind,
    package: PackageView,
    list: DependencyList,
    dep: BuildableDependencyView,
    other: DependencyAliasView,
)
    requires
        view.package_with_id(package.id) == package,
    ensures
        ({
            let (after, accepted) = view.processed(set, name, kind, package);
            let renamed = declares_rename(view.entry.package, package);
            let alias = as_alias(view.settings, package, name);
            let is_taken = renamed && set.aliased_dependencies.contains(alias);
            let is_clear = view.settings.genmode != GenMode::Unspecified && kind
                != DependencyKind::Unknown;
            &&& accepted is Ok <==> is_clear && !is_taken
            &&& accepted matches Err(error) ==> error == refusal(view, package, name, kind)
            &&& !is_clear ==> after == set
            &&& is_clear ==> {
                &&& times_listed(after, list, dep) == times_listed(set, list, dep) + if dep
                    == as_buildable(view.settings, package) && belongs_in(list, kind, dep) {
                    1nat
                } else {
                    0nat
                }
                &&& after.aliased_dependencies.contains(other)
                    <==> set.aliased_dependencies.contains(other) || renamed && other == alias
            }
        }),
{
    lemma_processed(view, set, name, kind, package);
    lemma_label(view, package);
    lemma_renamed(view.entry.package, package);
    if view.dep_label(package) is Ok {
        let build_dep = as_buildable(view.settings, package);
        lemma_proc_macro(view.settings, package);
        lemma_with_dependency(set, kind, build_dep);
    }
}

proof fn lemma_refused_before(
    view: CrateSubplannerView,
    sets: Seq<PlatformDepsView>,
    name: Text,
    package: PackageView,
    kinds: Seq<DepKindInfoView>,
    k: int,
)
    requires
        kinds.len() > 0,
        k != kinds.len() - 1,
    ensures
        is_refused_kind(view, sets, name, package, kinds, k) == is_refused_kind(
            view,
            sets,
            name,
            package,
            kinds.drop_last(),
            k,
        ),
{
    let front = kinds.drop_last();
    if 0 <= k < front.len() {
        assert(front[k] == kinds[k]);
        let t = kinds[k].target;
        if exists|b: int| b < k && #[trigger] is_kind_for(view, kinds, b, t) {
            let b = choose|b: int| b < k && #[trigger] is_kind_for(view, kinds, b, t);
            assert(front[b] == kinds[b]);
            assert(is_kind_for(view, front, b, t));
        }
        if exists|b: int| b < k && #[trigger] is_kind_for(view, front, b, t) {
            let b = choose|b: int| b < k && #[trigger] is_kind_for(view, front, b, t);
            assert(front[b] == kinds[b]);
            assert(is_kind_for(view, kinds, b, t));
        }
    }
}

proof fn lemma_first_refused_kind(
    view: CrateSubplannerView,
    sets: Seq<PlatformDepsView>,
    name: Text,
    package: PackageView,
    kinds: Seq<DepKindInfoView>,
) -> (k: int)
    requires
        is_known_package(view, package),
        view.with_kinds(sets, name, package, kinds) is Err,
    ensures
        is_refused_kind(view, sets, name, package, kinds, k),
        forall|h: int| h < k ==> !#[trigger] is_refused_kind(view, sets, name, package, kinds, h),
        view.with_kinds(sets, name, package, kinds)->Err_0 == refusal(
            view,
            package,
            name,
            kinds[k].kind,
        ),
    decreases kinds.len(),
{
    let front = kinds.drop_last();
    let last = kinds.last();
    let n = kinds.len() - 1;
    assert forall|h: int| h < n implies #[trigger] is_refused_kind(
        view,
        sets,
        name,
        package,
        kinds,
        h,
    ) == is_refused_kind(view, sets, name, package, front, h) by {
        lemma_refused_before(view, sets, name, package, kinds, h);
    }
    lemma_with_kinds(view, sets, name, package, front);
    lemma_with_kinds(view, sets, name, package, kinds);
    if view.with_kinds(sets, name, package, front) is Err {
        let k = lemma_first_refused_kind(view, sets, name, package, front);
        assert(front[k] == kinds[k]);
        assert(is_refused_kind(view, sets, name, package, kinds, k));
        k
    } else {
        let before = view.with_kinds(sets, name, package, front)->Ok_0;
        let dep = as_buildable(view.settings, package);
        lemma_wanted_platform(view, last.target);
        lemma_process_dep(
            view,
            set_for(before, last.target),
            name,
            last.kind,
            package,
            DependencyList::Dependencies,
            dep,
            as_alias(view.settings, package, name),
        );
        let j = choose|j: int| #[trigger] is_refused_kind(view, sets, name, package, kinds, j);
        if j < n {
            assert(!is_refused_kind(view, sets, name, package, front, j));
        }
        assert(j == n);
        n
    }
}

/// Whether the `k`th use of the `i`th dependency is the first that cannot be accepted.
pub open spec fn is_first_refused(view: CrateSubplannerView, i: int, k: int) -> bool {
    &&& is_refused_use(view, i, k)
    &&& forall|a: int, b: int| a < i || a == i && b < k ==> !#[trigger] is_refused_use(view, a, b)
}

proof fn lemma_first_refused_dep(view: CrateSubplannerView, n: int) -> (r: (int, int))
    requires
        knows_every_dep(view),
        0 <= n <= view.node.deps.len(),
        view.declared_deps(view.node.deps.take(n)) is Err,
    ensures
        is_first_refused(view, r.0, r.1),
        view.declared_deps(view.node.deps.take(n))->Err_0 == refusal(
            view,
            first_with_id(view.catalog.packages, view.node.deps[r.0].pkg),
            view.node.deps[r.0].name,
            view.node.deps[r.0].dep_kinds[r.1].kind,
        ),
    decreases n,
{
    let deps = view.node.deps.take(n);
    let m = n - 1;
    let front = view.node.deps.take(m);
    let last = view.node.deps[m];
    assert(deps.drop_last() =~= front);
    assert(deps.last() == last);
    if view.declared_deps(front) is Err {
        lemma_first_refused_dep(view, m)
    } else {
        let before = view.declared_deps(front)->Ok_0;
        let package = first_with_id(view.catalog.packages, last.pkg);
        lemma_declared_deps(view, m);
        let j = choose|j: int| is_first_with_id(view.catalog.packages, view.node.deps[m].pkg, j);
        lemma_first_with_id(view.catalog, last.pkg, j);
        assert(package.id == last.pkg);
        assert(view.package_with_id(last.pkg) == package);
        assert(view.is_skipped(package) == leaves_package_out(view, package));
        let k = lemma_first_refused_kind(view, before, last.name, package, last.dep_kinds);
        lemma_refused(view, m, k, before);
        assert forall|a: int, b: int| a < m || a == m && b < k implies !#[trigger] is_refused_use(
            view,
            a,
            b,
        ) by {
            if a == m {
                lemma_refused(view, m, b, before);
            }
        }
        (m, k)
    }
}

/// Where the dependencies of a crate cannot be listed, the error is about the first use that cannot be
/// accepted, and tells why.
pub proof fn lemma_first_refused_use(view: CrateSubplannerView) -> (r: (int, int))
    requires
        knows_every_dep(view),
        view.deps() is Err,
    ensures
        is_first_refused(view, r.0, r.1),
        view.deps()->Err_0 == refusal(
            view,
            first_with_id(view.catalog.packages, view.node.deps[r.0].pkg),
            view.node.deps[r.0].name,
            view.node.deps[r.0].dep_kinds[r.1].kind,
        ),
{
    let n = view.node.deps.len() as int;
    assert(view.node.deps.take(n) =~= view.node.deps);
    lemma_first_refused_dep(view, n)
}

/// Whether a dependency may stand in front of another: that with the lesser label does; of the same
/// label that with the lesser name; and of the same name that whose version is not above, where the
/// versions differ.
pub open spec fn dependency_may_precede(
    a: BuildableDependencyView,
    b: BuildableDependencyView,
) -> bool {
    ||| text_before(a.buildable_target, b.buildable_target)
    ||| a.buildable_target == b.buildable_target && text_before(a.name, b.name)
    ||| a.buildable_target == b.buildable_target && a.name == b.name && a.version != b.version
        && version_le(a.version, b.version)
    ||| a.buildable_target == b.buildable_target && a.name == b.name && a.version == b.version && (
    a.is_proc_macro ==> b.is_proc_macro)
}

/// In a context whose lists are in order, as those of every planned crate are, each dependency of each
/// list may stand in front of those behind it, for all platforms and for single ones.
pub proof fn lemma_deps_are_ordered(
    context: CrateContextView,
    list: DependencyList,
    e: int,
    i: int,
    j: int,
)
    requires
        deps_in_order(context),
    ensures
        ({
            let all = listed(context.default_deps, list);
            let own = listed(context.targeted_deps[e].deps, list);
            &&& 0 <= i < j < all.len() ==> dependency_may_precede(all[i], all[j])
            &&& 0 <= e < context.targeted_deps.len() && 0 <= i < j < own.len()
                ==> dependency_may_precede(own[i], own[j])
        }),
{
    let all = listed(context.default_deps, list);
    assert(in_order::<BuildableDependency>(all));
    if 0 <= i < j < all.len() {
        assert(BuildableDependency::ranks_le(all[i], all[j]));
    }
    if 0 <= e < context.targeted_deps.len() {
        let own = listed(context.targeted_deps[e].deps, list);
        assert(lists_in_order(context.targeted_deps[e].deps));
        assert(in_order::<BuildableDependency>(own));
        if 0 <= i < j < own.len() {
            assert(BuildableDependency::ranks_le(own[i], own[j]));
        }
    }
}

/// The aliases of a context are in order of their targets, and those of a target in order of their
/// names. The platforms are in order too.
pub proof fn lemma_context_aliases_are_ordered(view: CrateSubplannerView, e: int, i: int, j: int)
    requires
        view.context() is Ok,
    ensures
        ({
            let context = view.context()->Ok_0;
            let all = context.default_deps.aliased_dependencies;
            let targeted = context.targeted_deps;
            &&& 0 <= i < j < all.len() ==> alias_may_precede(all[i], all[j])
            &&& 0 <= e < targeted.len() && 0 <= i < j
                < targeted[e].deps.aliased_dependencies.len() ==> alias_may_precede(
                targeted[e].deps.aliased_dependencies[i],
                targeted[e].deps.aliased_dependencies[j],
            )
            &&& 0 <= i < j < targeted.len() ==> text_before(targeted[i].target, targeted[j].target)
        }),
{
    lemma_context_deps_tidy(view);
    lemma_targeted_deps(view);
    let context = view.context()->Ok_0;
    let all = context.default_deps.aliased_dependencies;
    if 0 <= i < j < all.len() {
        assert(DependencyAlias::ranks_le(all[i], all[j]));
    }
    if 0 <= e < context.targeted_deps.len() {
        let own = context.targeted_deps[e].deps.aliased_dependencies;
        if 0 <= i < j < own.len() {
            assert(DependencyAlias::ranks_le(own[i], own[j]));
        }
    }
}

/// Whether an alias may stand in front of another.
pub open spec fn alias_may_precede(a: DependencyAliasView, b: DependencyAliasView) -> bool {
    text_before(a.target, b.target) || a.target == b.target && !text_before(b.alias, a.alias)
}

} // verus!
