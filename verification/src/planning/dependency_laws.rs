//! What holds of the dependencies in every context.

use vstd::prelude::*;

use crate::context::{
    lemma_alias_ranks, lemma_targeted_ranks, BuildableDependency, BuildableDependencyView,
    CrateDependencyContext, CrateDependencyContextView, CrateTargetedDepContext,
    CrateTargetedDepContextView, DependencyAlias, DependencyAliasView,
};
use crate::metadata::{DepKindInfoView, DependencyKind, NodeDepView, PackageView};
use crate::planning::crate_subplanner::{
    is_proc_macro_package, set_for, with_dependency, with_set, with_sorted_lists, with_sorted_sets,
    CrateSubplannerView, PlatformDepsView,
};
use crate::platform::{matching_triples, triple_chosen, BazelTripleView};
use crate::sorting::{
    in_order, lemma_inserted_in_place, lemma_stable_sorted, lemma_stable_sorted_keeps_items,
    stable_sorted, Ranked,
};
use crate::text::{lemma_text_order_total, sanitized, text_before, Text};

verus! {

/// How many dependencies the lists hold.
pub open spec fn listed_count(set: CrateDependencyContextView) -> nat {
    set.dependencies.len() + set.proc_macro_dependencies.len() + set.build_dependencies.len()
        + set.build_proc_macro_dependencies.len() + set.dev_dependencies.len()
}

/// A dependency whose use is known is added at the end of one list, and of two if it is needed by the
/// crate itself, binds a system library, and is no procedural macro. Where its use is not known, it is
/// added to none.
pub proof fn lemma_dependency_is_listed(
    set: CrateDependencyContextView,
    kind: DependencyKind,
    dep: BuildableDependencyView,
)
    ensures
        with_dependency(set, kind, dep) is None <==> kind == DependencyKind::Unknown,
        with_dependency(set, kind, dep) matches Some(after) ==> {
            &&& listed_count(after) == listed_count(set) + if kind == DependencyKind::Normal
                && !dep.is_proc_macro && "-sys"@.is_suffix_of(dep.name) {
                2nat
            } else {
                1nat
            }
            &&& set.dependencies.is_prefix_of(after.dependencies)
            &&& set.proc_macro_dependencies.is_prefix_of(after.proc_macro_dependencies)
            &&& set.build_dependencies.is_prefix_of(after.build_dependencies)
            &&& set.build_proc_macro_dependencies.is_prefix_of(after.build_proc_macro_dependencies)
            &&& set.dev_dependencies.is_prefix_of(after.dev_dependencies)
            &&& after.aliased_dependencies == set.aliased_dependencies
        },
{
    lemma_prefix_of_push(set.dependencies, dep);
    lemma_prefix_of_push(set.proc_macro_dependencies, dep);
    lemma_prefix_of_push(set.build_dependencies, dep);
    lemma_prefix_of_push(set.build_proc_macro_dependencies, dep);
    lemma_prefix_of_push(set.dev_dependencies, dep);
}

proof fn lemma_prefix_of_push<A>(s: Seq<A>, x: A)
    ensures
        s.is_prefix_of(s),
        s.is_prefix_of(s.push(x)),
{
    assert(s =~= s.subrange(0, s.len() as int));
    assert(s =~= s.push(x).subrange(0, s.len() as int));
}

/// Whether the settings leave a dependency out.
pub open spec fn leaves_out(view: CrateSubplannerView, dep: BuildableDependencyView) -> bool {
    view.crate_settings matches Some(settings) && settings.skipped_deps.contains(
        dep.name + "-"@ + dep.version,
    )
}

/// Whether a list holds no dependency that the settings leave out, and only procedural macros or only
/// other crates.
pub open spec fn holds_only(
    view: CrateSubplannerView,
    list: Seq<BuildableDependencyView>,
    proc_macros: bool,
) -> bool {
    forall|i: int|
        0 <= i < list.len() ==> (#[trigger] list[i]).is_proc_macro == proc_macros && !leaves_out(
            view,
            list[i],
        )
}

/// Whether the lists hold what they should: no dependency that the settings leave out; procedural
/// macros apart from other crates; and each alias once, in order.
pub open spec fn is_tidy(view: CrateSubplannerView, set: CrateDependencyContextView) -> bool {
    &&& holds_only(view, set.dependencies, false)
    &&& holds_only(view, set.proc_macro_dependencies, true)
    &&& holds_only(view, set.build_dependencies, false)
    &&& holds_only(view, set.build_proc_macro_dependencies, true)
    &&& forall|i: int|
        0 <= i < set.dev_dependencies.len() ==> !leaves_out(
            view,
            #[trigger] set.dev_dependencies[i],
        )
    &&& in_order::<DependencyAlias>(set.aliased_dependencies)
    &&& set.aliased_dependencies.no_duplicates()
}

proof fn lemma_processed_tidy(
    view: CrateSubplannerView,
    set: CrateDependencyContextView,
    name: Text,
    kind: DependencyKind,
    dep: PackageView,
)
    requires
        is_tidy(view, set),
        !view.is_skipped(dep),
    ensures
        is_tidy(view, view.processed(set, name, kind, dep).0),
{
    if view.dep_label(dep) is Ok {
        let label = view.dep_label(dep)->Ok_0;
        let build_dep = BuildableDependencyView {
            buildable_target: label,
            name: dep.name,
            version: dep.version,
            is_proc_macro: is_proc_macro_package(dep),
        };
        assert(!leaves_out(view, build_dep));
        let alias = DependencyAliasView { target: label, alias: sanitized(name) };
        if with_dependency(set, kind, build_dep) is Some {
            let listed = with_dependency(set, kind, build_dep)->Some_0;
            assert(is_tidy(view, listed));
            lemma_alias_ranks();
            lemma_inserted_in_place::<DependencyAlias>(listed.aliased_dependencies, alias);
        }
    }
}

/// Whether no two of the sets are for the same platform, each is for a platform that is wanted, and
/// each is tidy.
pub open spec fn are_tidy(view: CrateSubplannerView, sets: Seq<PlatformDepsView>) -> bool {
    &&& forall|i: int, j: int|
        0 <= i < j < sets.len() ==> (#[trigger] sets[i]).target != (#[trigger] sets[j]).target
    &&& forall|i: int|
        0 <= i < sets.len() ==> is_tidy(view, (#[trigger] sets[i]).deps) && view.is_targetted(
            sets[i].target,
        )
}

proof fn lemma_nothing_tidy(view: CrateSubplannerView)
    ensures
        is_tidy(view, CrateDependencyContext::nothing()),
{
}

proof fn lemma_set_for_tidy(
    view: CrateSubplannerView,
    sets: Seq<PlatformDepsView>,
    target: Option<Text>,
)
    requires
        are_tidy(view, sets),
    ensures
        is_tidy(view, set_for(sets, target)),
    decreases sets.len(),
{
    lemma_nothing_tidy(view);
    if sets.len() > 0 && sets[0].target != target {
        let rest = sets.drop_first();
        assert(are_tidy(view, rest)) by {
            assert forall|i: int, j: int| 0 <= i < j < rest.len() implies (
            #[trigger] rest[i]).target != (#[trigger] rest[j]).target by {
                assert(rest[i] == sets[i + 1] && rest[j] == sets[j + 1]);
            }
            assert forall|i: int| 0 <= i < rest.len() implies is_tidy(
                view,
                (#[trigger] rest[i]).deps,
            ) && view.is_targetted(rest[i].target) by {
                assert(rest[i] == sets[i + 1]);
            }
        }
        lemma_set_for_tidy(view, rest, target);
    }
}

proof fn lemma_with_set(
    sets: Seq<PlatformDepsView>,
    target: Option<Text>,
    deps: CrateDependencyContextView,
)
    ensures
        ({
            let r = with_set(sets, target, deps);
            &&& sets.len() <= r.len() <= sets.len() + 1
            &&& forall|i: int|
                0 <= i < sets.len() ==> (#[trigger] r[i]).target == sets[i].target && (r[i]
                    == sets[i] || r[i].deps == deps)
            &&& forall|i: int|
                sets.len() <= i < r.len() ==> #[trigger] r[i] == (PlatformDepsView { target, deps })
                    && forall|j: int|
                    0 <= j < sets.len() ==> (#[trigger] sets[j]).target != target
        }),
    decreases sets.len(),
{
    let r = with_set(sets, target, deps);
    if sets.len() > 0 && sets[0].target != target {
        let rest = sets.drop_first();
        let s = with_set(rest, target, deps);
        lemma_with_set(rest, target, deps);
        assert forall|i: int| 0 <= i < sets.len() implies (#[trigger] r[i]).target == sets[i].target
            && (r[i] == sets[i] || r[i].deps == deps) by {
            if i > 0 {
                assert(r[i] == s[i - 1]);
                assert(rest[i - 1] == sets[i]);
            }
        }
        assert forall|i: int| sets.len() <= i < r.len() implies #[trigger] r[i] == (
        PlatformDepsView { target, deps }) && forall|j: int|
            0 <= j < sets.len() ==> (#[trigger] sets[j]).target != target by {
            assert(r[i] == s[i - 1]);
            assert forall|j: int| 0 <= j < sets.len() implies (#[trigger] sets[j]).target
                != target by {
                if j > 0 {
                    assert(rest[j - 1] == sets[j]);
                }
            }
        }
    }
}

proof fn lemma_with_set_tidy(
    view: CrateSubplannerView,
    sets: Seq<PlatformDepsView>,
    target: Option<Text>,
    deps: CrateDependencyContextView,
)
    requires
        are_tidy(view, sets),
        is_tidy(view, deps),
        view.is_targetted(target),
    ensures
        are_tidy(view, with_set(sets, target, deps)),
{
    let r = with_set(sets, target, deps);
    lemma_with_set(sets, target, deps);
    assert forall|i: int, j: int| 0 <= i < j < r.len() implies (#[trigger] r[i]).target != (
    #[trigger] r[j]).target by {
        assert(sets[i].target == r[i].target);
        if j < sets.len() {
            assert(sets[j].target == r[j].target);
        }
    }
    assert forall|i: int| 0 <= i < r.len() implies is_tidy(view, (#[trigger] r[i]).deps)
        && view.is_targetted(r[i].target) by {
        if i < sets.len() {
            assert(is_tidy(view, sets[i].deps));
        }
    }
}

proof fn lemma_with_kinds_tidy(
    view: CrateSubplannerView,
    sets: Seq<PlatformDepsView>,
    name: Text,
    dep: PackageView,
    kinds: Seq<DepKindInfoView>,
)
    requires
        are_tidy(view, sets),
        !view.is_skipped(dep),
    ensures
        view.with_kinds(sets, name, dep, kinds) matches Ok(after) ==> are_tidy(view, after),
    decreases kinds.len(),
{
    if kinds.len() > 0 {
        lemma_with_kinds_tidy(view, sets, name, dep, kinds.drop_last());
        if view.with_kinds(sets, name, dep, kinds.drop_last()) is Ok {
            let before = view.with_kinds(sets, name, dep, kinds.drop_last())->Ok_0;
            let kind = kinds.last();
            if view.is_targetted(kind.target) {
                let set = set_for(before, kind.target);
                lemma_set_for_tidy(view, before, kind.target);
                lemma_processed_tidy(view, set, name, kind.kind, dep);
                lemma_with_set_tidy(
                    view,
                    before,
                    kind.target,
                    view.processed(set, name, kind.kind, dep).0,
                );
            }
        }
    }
}

proof fn lemma_declared_deps_tidy(view: CrateSubplannerView, deps: Seq<NodeDepView>)
    ensures
        view.declared_deps(deps) matches Ok(sets) ==> are_tidy(view, sets),
    decreases deps.len(),
{
    if deps.len() > 0 {
        lemma_declared_deps_tidy(view, deps.drop_last());
        if view.declared_deps(deps.drop_last()) is Ok {
            let before = view.declared_deps(deps.drop_last())->Ok_0;
            let dep = view.package_with_id(deps.last().pkg);
            if !view.is_skipped(dep) {
                lemma_with_kinds_tidy(
                    view,
                    before,
                    deps.last().name,
                    dep,
                    deps.last().dep_kinds,
                );
            }
        }
    }
}

proof fn lemma_sorted_holds_only(
    view: CrateSubplannerView,
    list: Seq<BuildableDependencyView>,
    proc_macros: bool,
)
    requires
        holds_only(view, list, proc_macros),
    ensures
        holds_only(view, stable_sorted::<BuildableDependency>(list), proc_macros),
{
    let sorted = stable_sorted::<BuildableDependency>(list);
    lemma_stable_sorted_keeps_items::<BuildableDependency>(list);
    assert forall|i: int| 0 <= i < sorted.len() implies (#[trigger] sorted[i]).is_proc_macro
        == proc_macros && !leaves_out(view, sorted[i]) by {
        assert(sorted.contains(sorted[i]));
        let j = choose|j: int| 0 <= j < list.len() && list[j] == sorted[i];
        assert(list[j].is_proc_macro == proc_macros);
    }
}

proof fn lemma_sorted_lists_tidy(view: CrateSubplannerView, set: CrateDependencyContextView)
    requires
        is_tidy(view, set),
    ensures
        is_tidy(view, with_sorted_lists(set)),
{
    lemma_sorted_holds_only(view, set.dependencies, false);
    lemma_sorted_holds_only(view, set.proc_macro_dependencies, true);
    lemma_sorted_holds_only(view, set.build_dependencies, false);
    lemma_sorted_holds_only(view, set.build_proc_macro_dependencies, true);
    let list = set.dev_dependencies;
    let sorted = stable_sorted::<BuildableDependency>(list);
    lemma_stable_sorted_keeps_items::<BuildableDependency>(list);
    assert forall|i: int| 0 <= i < sorted.len() implies !leaves_out(view, #[trigger] sorted[i]) by {
        assert(sorted.contains(sorted[i]));
        let j = choose|j: int| 0 <= j < list.len() && list[j] == sorted[i];
        assert(!leaves_out(view, list[j]));
    }
}

/// The dependencies of every crate are tidy.
pub proof fn lemma_deps_tidy(view: CrateSubplannerView)
    ensures
        view.deps() matches Ok(sets) ==> are_tidy(view, sets),
{
    lemma_declared_deps_tidy(view, view.node.deps);
    if view.deps() is Ok {
        let declared = view.declared_deps(view.node.deps)->Ok_0;
        let sets = with_sorted_sets(declared);
        assert forall|i: int, j: int| 0 <= i < j < sets.len() implies (#[trigger] sets[i]).target
            != (#[trigger] sets[j]).target by {
            assert(declared[i].target != declared[j].target);
        }
        assert forall|i: int| 0 <= i < sets.len() implies is_tidy(view, (#[trigger] sets[i]).deps)
            && view.is_targetted(sets[i].target) by {
            assert(is_tidy(view, declared[i].deps));
            lemma_sorted_lists_tidy(view, declared[i].deps);
        }
    }
}

/// The dependencies for single platforms come from the sets, each from another.
pub proof fn lemma_targeted_sets(view: CrateSubplannerView, sets: Seq<PlatformDepsView>)
    requires
        are_tidy(view, sets),
    ensures
        forall|i: int|
            0 <= i < view.targeted_sets(sets).len() ==> exists|j: int|
                0 <= j < sets.len() && (#[trigger] sets[j]).target is Some
                    && #[trigger] view.targeted_sets(sets)[i] == view.targeted_set(sets[j])
                    && view.targeted_sets(sets)[i].platform_targets.len() > 0,
        forall|i: int, j: int|
            0 <= i < j < view.targeted_sets(sets).len() ==> (#[trigger] view.targeted_sets(
                sets,
            )[i]).target != (#[trigger] view.targeted_sets(sets)[j]).target,
    decreases sets.len(),
{
    let r = view.targeted_sets(sets);
    if sets.len() > 0 {
        let front = sets.drop_last();
        let last = sets.last();
        let before = view.targeted_sets(front);
        assert(sets[sets.len() - 1] == last);
        assert(are_tidy(view, front)) by {
            assert forall|i: int, j: int| 0 <= i < j < front.len() implies (
            #[trigger] front[i]).target != (#[trigger] front[j]).target by {
                assert(front[i] == sets[i] && front[j] == sets[j]);
            }
            assert forall|i: int| 0 <= i < front.len() implies is_tidy(
                view,
                (#[trigger] front[i]).deps,
            ) && view.is_targetted(front[i].target) by {
                assert(front[i] == sets[i]);
            }
        }
        lemma_targeted_sets(view, front);
        assert forall|i: int| 0 <= i < r.len() implies exists|j: int|
            0 <= j < sets.len() && (#[trigger] sets[j]).target is Some && #[trigger] r[i]
                == view.targeted_set(sets[j]) && r[i].platform_targets.len() > 0 by {
            if i < before.len() {
                assert(r[i] == before[i]);
                let j = choose|j: int|
                    0 <= j < front.len() && (#[trigger] front[j]).target is Some && before[i]
                        == view.targeted_set(front[j]) && before[i].platform_targets.len() > 0;
                assert(front[j] == sets[j]);
            } else {
                assert(r[i] == view.targeted_set(sets[sets.len() - 1]));
            }
        }
        assert forall|i: int, j: int| 0 <= i < j < r.len() implies (#[trigger] r[i]).target != (
        #[trigger] r[j]).target by {
            assert(r[i] == before[i]);
            if j < before.len() {
                assert(r[j] == before[j]);
            } else {
                let k = choose|k: int|
                    0 <= k < front.len() && (#[trigger] front[k]).target is Some && before[i]
                        == view.targeted_set(front[k]) && before[i].platform_targets.len() > 0;
                assert(front[k] == sets[k]);
                assert(sets[k].target != sets[sets.len() - 1].target);
            }
        }
    }
}

/// Every target of a platform is one that the platform matches, and one of those that are wanted,
/// where there is such a list.
pub proof fn lemma_matching_triples(
    repr: Text,
    triples: Seq<BazelTripleView>,
    allowed: Option<Seq<Text>>,
    name: Text,
)
    requires
        matching_triples(repr, triples, allowed).contains(name),
    ensures
        exists|i: int|
            0 <= i < triples.len() && (#[trigger] triples[i]).triple == name && triple_chosen(
                repr,
                allowed,
                triples[i],
            ),
        allowed matches Some(names) ==> names.contains(name),
    decreases triples.len(),
{
    reveal(Seq::filter);
    let all = matching_triples(repr, triples, allowed);
    if triples.len() > 0 {
        let front = triples.drop_last();
        let last = triples.last();
        let before = matching_triples(repr, front, allowed);
        assert(triples[triples.len() - 1] == last);
        assert(all =~= if triple_chosen(repr, allowed, last) {
            before.push(last.triple)
        } else {
            before
        });
        let k = choose|k: int| 0 <= k < all.len() && all[k] == name;
        if k < before.len() {
            assert(before[k] == name);
            lemma_matching_triples(repr, front, allowed, name);
            let i = choose|i: int|
                0 <= i < front.len() && (#[trigger] front[i]).triple == name && triple_chosen(
                    repr,
                    allowed,
                    front[i],
                );
            assert(triples[i] == front[i]);
        }
    }
}

/// The dependencies of a crate for single platforms come once for each platform, in order of the
/// platforms. Each platform is wanted and matches a target, and only targets that are wanted are
/// listed for it.
pub proof fn lemma_targeted_deps(view: CrateSubplannerView)
    requires
        view.context() is Ok,
    ensures
        ({
            let targeted = view.context()->Ok_0.targeted_deps;
            &&& forall|i: int, j: int|
                0 <= i < j < targeted.len() ==> text_before(
                    (#[trigger] targeted[i]).target,
                    (#[trigger] targeted[j]).target,
                )
            &&& forall|i: int|
                0 <= i < targeted.len() ==> {
                    &&& view.is_targetted(Some((#[trigger] targeted[i]).target))
                    &&& targeted[i].platform_targets.len() > 0
                    &&& targeted[i].platform_targets == matching_triples(
                        targeted[i].target,
                        view.facts.bazel_triples,
                        view.settings.targets,
                    )
                    &&& view.settings.targets matches Some(names) ==> forall|k: int|
                        0 <= k < targeted[i].platform_targets.len() ==> names.contains(
                            #[trigger] targeted[i].platform_targets[k],
                        )
                }
        }),
{
    let sets = view.deps()->Ok_0;
    let declared = view.targeted_sets(sets);
    let targeted = view.context()->Ok_0.targeted_deps;
    lemma_deps_tidy(view);
    lemma_targeted_sets(view, sets);
    lemma_targeted_ranks();
    lemma_stable_sorted::<CrateTargetedDepContext>(declared);
    lemma_stable_sorted_keeps_items::<CrateTargetedDepContext>(declared);
    lemma_same_items_distinct(declared, targeted);
    assert forall|i: int, j: int| 0 <= i < j < targeted.len() implies text_before(
        (#[trigger] targeted[i]).target,
        (#[trigger] targeted[j]).target,
    ) by {
        lemma_text_order_total(targeted[i].target, targeted[j].target);
        assert(CrateTargetedDepContext::ranks_le(targeted[i], targeted[j]));
    }
    assert forall|i: int| 0 <= i < targeted.len() implies {
        &&& view.is_targetted(Some((#[trigger] targeted[i]).target))
        &&& targeted[i].platform_targets.len() > 0
        &&& targeted[i].platform_targets == matching_triples(
            targeted[i].target,
            view.facts.bazel_triples,
            view.settings.targets,
        )
        &&& view.settings.targets matches Some(names) ==> forall|k: int|
            0 <= k < targeted[i].platform_targets.len() ==> names.contains(
                #[trigger] targeted[i].platform_targets[k],
            )
    } by {
        assert(targeted.contains(targeted[i]));
        let d = choose|d: int| 0 <= d < declared.len() && declared[d] == targeted[i];
        let j = choose|j: int|
            0 <= j < sets.len() && (#[trigger] sets[j]).target is Some && declared[d]
                == view.targeted_set(sets[j]) && declared[d].platform_targets.len() > 0;
        assert(view.is_targetted(sets[j].target));
        assert(sets[j].target == Some(targeted[i].target));
        assert forall|k: int| 0 <= k < targeted[i].platform_targets.len() && (
        view.settings.targets is Some) implies view.settings.targets->Some_0.contains(
            #[trigger] targeted[i].platform_targets[k],
        ) by {
            lemma_matching_triples(
                targeted[i].target,
                view.facts.bazel_triples,
                view.settings.targets,
                targeted[i].platform_targets[k],
            );
        }
    }
}

proof fn lemma_same_items_distinct(
    a: Seq<CrateTargetedDepContextView>,
    b: Seq<CrateTargetedDepContextView>,
)
    requires
        a.to_multiset() == b.to_multiset(),
        forall|i: int, j: int|
            0 <= i < j < a.len() ==> (#[trigger] a[i]).target != (#[trigger] a[j]).target,
    ensures
        forall|i: int, j: int|
            0 <= i < j < b.len() ==> (#[trigger] b[i]).target != (#[trigger] b[j]).target,
{
    broadcast use vstd::seq_lib::group_to_multiset_ensures;

    assert(a.no_duplicates());
    a.lemma_multiset_has_no_duplicates();
    assert(b.no_duplicates()) by {
        b.lemma_multiset_has_no_duplicates_conv();
    }
    assert forall|i: int, j: int| 0 <= i < j < b.len() implies (#[trigger] b[i]).target != (
    #[trigger] b[j]).target by {
        assert(a.contains(b[i])) by {
            assert(b.to_multiset().count(b[i]) > 0);
        }
        assert(a.contains(b[j])) by {
            assert(b.to_multiset().count(b[j]) > 0);
        }
        let k = choose|k: int| 0 <= k < a.len() && a[k] == b[i];
        let l = choose|l: int| 0 <= l < a.len() && a[l] == b[j];
        assert(b[i] != b[j]);
        if k < l {
            assert(a[k].target != a[l].target);
        } else {
            assert(a[l].target != a[k].target);
        }
    }
}

/// In every context, procedural macros are kept apart from other crates, no dependency that the
/// settings leave out is listed, and each alias stands once, in order.
pub proof fn lemma_context_deps_tidy(view: CrateSubplannerView)
    requires
        view.context() is Ok,
    ensures
        is_tidy(view, view.context()->Ok_0.default_deps),
        forall|i: int|
            0 <= i < view.context()->Ok_0.targeted_deps.len() ==> is_tidy(
                view,
                (#[trigger] view.context()->Ok_0.targeted_deps[i]).deps,
            ),
{
    let sets = view.deps()->Ok_0;
    let declared = view.targeted_sets(sets);
    let targeted = view.context()->Ok_0.targeted_deps;
    lemma_deps_tidy(view);
    lemma_set_for_tidy(view, sets, None);
    lemma_targeted_sets(view, sets);
    lemma_stable_sorted_keeps_items::<CrateTargetedDepContext>(declared);
    assert forall|i: int| 0 <= i < targeted.len() implies is_tidy(
        view,
        (#[trigger] targeted[i]).deps,
    ) by {
        assert(targeted.contains(targeted[i]));
        let d = choose|d: int| 0 <= d < declared.len() && declared[d] == targeted[i];
        let j = choose|j: int|
            0 <= j < sets.len() && (#[trigger] sets[j]).target is Some && declared[d]
                == view.targeted_set(sets[j]) && declared[d].platform_targets.len() > 0;
        assert(is_tidy(view, sets[j].deps));
    }
}

/// A package as a dependency that Bazel can build.
pub open spec fn buildable(view: CrateSubplannerView, dep: PackageView) -> BuildableDependencyView {
    BuildableDependencyView {
        buildable_target: view.dep_label(dep)->Ok_0,
        name: dep.name,
        version: dep.version,
        is_proc_macro: is_proc_macro_package(dep),
    }
}

/// Whether a dependency stands where it belongs by what it is needed for.
pub open spec fn is_listed(
    set: CrateDependencyContextView,
    kind: DependencyKind,
    dep: BuildableDependencyView,
) -> bool {
    match kind {
        DependencyKind::Build => if dep.is_proc_macro {
            set.build_proc_macro_dependencies.contains(dep)
        } else {
            set.build_dependencies.contains(dep)
        },
        DependencyKind::Development => set.dev_dependencies.contains(dep),
        DependencyKind::Normal => if dep.is_proc_macro {
            set.proc_macro_dependencies.contains(dep)
        } else {
            set.dependencies.contains(dep) && ("-sys"@.is_suffix_of(dep.name)
                ==> set.build_dependencies.contains(dep))
        },
        DependencyKind::Unknown => false,
    }
}

/// Whether a dependency stands in one of the lists.
pub open spec fn is_listed_somewhere(
    set: CrateDependencyContextView,
    dep: BuildableDependencyView,
) -> bool {
    ||| set.dependencies.contains(dep)
    ||| set.proc_macro_dependencies.contains(dep)
    ||| set.build_dependencies.contains(dep)
    ||| set.build_proc_macro_dependencies.contains(dep)
    ||| set.dev_dependencies.contains(dep)
}

proof fn lemma_push_contains<A>(s: Seq<A>, x: A)
    ensures
        s.push(x).contains(x),
        forall|y: A| #[trigger] s.push(x).contains(y) <==> s.contains(y) || y == x,
{
    assert(s.push(x)[s.len() as int] == x);
    assert forall|y: A| #[trigger] s.push(x).contains(y) <==> s.contains(y) || y == x by {
        if s.contains(y) {
            let i = choose|i: int| 0 <= i < s.len() && s[i] == y;
            assert(s.push(x)[i] == y);
        }
        if s.push(x).contains(y) {
            let i = choose|i: int| 0 <= i < s.push(x).len() && s.push(x)[i] == y;
            if i < s.len() {
                assert(s[i] == y);
            }
        }
    }
}

proof fn lemma_processed_lists(
    view: CrateSubplannerView,
    set: CrateDependencyContextView,
    name: Text,
    kind: DependencyKind,
    dep: PackageView,
)
    requires
        view.processed(set, name, kind, dep).1 is Ok,
    ensures
        is_listed(view.processed(set, name, kind, dep).0, kind, buildable(view, dep)),
        forall|k: DependencyKind, d: BuildableDependencyView|
            is_listed(set, k, d) ==> #[trigger] is_listed(
                view.processed(set, name, kind, dep).0,
                k,
                d,
            ),
        forall|d: BuildableDependencyView| #[trigger]
            is_listed_somewhere(view.processed(set, name, kind, dep).0, d) ==> is_listed_somewhere(
                set,
                d,
            ) || d == buildable(view, dep),
{
    let d = buildable(view, dep);
    lemma_push_contains(set.dependencies, d);
    lemma_push_contains(set.proc_macro_dependencies, d);
    lemma_push_contains(set.build_dependencies, d);
    lemma_push_contains(set.build_proc_macro_dependencies, d);
    lemma_push_contains(set.dev_dependencies, d);
}

proof fn lemma_set_for_with_set(
    sets: Seq<PlatformDepsView>,
    target: Option<Text>,
    deps: CrateDependencyContextView,
    other: Option<Text>,
)
    ensures
        set_for(with_set(sets, target, deps), other) == (if other == target {
            deps
        } else {
            set_for(sets, other)
        }),
    decreases sets.len(),
{
    let r = with_set(sets, target, deps);
    reveal_with_fuel(set_for, 2);
    if sets.len() == 0 {
        assert(r.drop_first() =~= Seq::empty());
    } else if sets[0].target == target {
        assert(r.drop_first() =~= sets.drop_first());
    } else {
        let rest = sets.drop_first();
        lemma_set_for_with_set(rest, target, deps, other);
        assert(r.drop_first() =~= with_set(rest, target, deps));
        assert(r[0] == sets[0]);
    }
}

/// Whether one of `deps` is on the package of `d`.
pub open spec fn comes_from(
    view: CrateSubplannerView,
    deps: Seq<NodeDepView>,
    d: BuildableDependencyView,
) -> bool {
    exists|i: int|
        0 <= i < deps.len() && d == buildable(
            view,
            view.package_with_id((#[trigger] deps[i]).pkg),
        )
}

/// Whether a use of one of `deps` is wanted.
pub open spec fn is_wanted(
    view: CrateSubplannerView,
    deps: Seq<NodeDepView>,
    i: int,
    k: int,
) -> bool {
    &&& 0 <= i < deps.len()
    &&& 0 <= k < deps[i].dep_kinds.len()
    &&& !view.is_skipped(view.package_with_id(deps[i].pkg))
    &&& view.is_targetted(deps[i].dep_kinds[k].target)
}

proof fn lemma_with_kinds_lists(
    view: CrateSubplannerView,
    sets: Seq<PlatformDepsView>,
    name: Text,
    dep: PackageView,
    kinds: Seq<DepKindInfoView>,
)
    ensures
        view.with_kinds(sets, name, dep, kinds) matches Ok(after) ==> {
            &&& forall|k: int|
                0 <= k < kinds.len() && view.is_targetted((#[trigger] kinds[k]).target)
                    ==> is_listed(
                    set_for(after, kinds[k].target),
                    kinds[k].kind,
                    buildable(view, dep),
                )
            &&& forall|t: Option<Text>, k: DependencyKind, d: BuildableDependencyView|
                is_listed(set_for(sets, t), k, d) ==> #[trigger] is_listed(set_for(after, t), k, d)
            &&& forall|t: Option<Text>, d: BuildableDependencyView| #[trigger]
                is_listed_somewhere(set_for(after, t), d) ==> is_listed_somewhere(
                    set_for(sets, t),
                    d,
                ) || d == buildable(view, dep)
        },
    decreases kinds.len(),
{
    if kinds.len() > 0 && view.with_kinds(sets, name, dep, kinds) is Ok {
        let front = kinds.drop_last();
        let last = kinds.last();
        lemma_with_kinds_lists(view, sets, name, dep, front);
        let before = view.with_kinds(sets, name, dep, front)->Ok_0;
        let after = view.with_kinds(sets, name, dep, kinds)->Ok_0;
        let set = set_for(before, last.target);
        let processed = view.processed(set, name, last.kind, dep).0;
        if view.is_targetted(last.target) {
            lemma_processed_lists(view, set, name, last.kind, dep);
            assert forall|t: Option<Text>| #[trigger] set_for(after, t) == (if t == last.target {
                processed
            } else {
                set_for(before, t)
            }) by {
                lemma_set_for_with_set(before, last.target, processed, t);
            }
        }
        assert forall|k: int|
            0 <= k < kinds.len() && view.is_targetted((#[trigger] kinds[k]).target) implies is_listed(
            set_for(after, kinds[k].target),
            kinds[k].kind,
            buildable(view, dep),
        ) by {
            if k < front.len() {
                assert(front[k] == kinds[k]);
                assert(is_listed(
                    set_for(before, front[k].target),
                    front[k].kind,
                    buildable(view, dep),
                ));
            }
        }
    }
}

proof fn lemma_declared_deps_list(view: CrateSubplannerView, deps: Seq<NodeDepView>)
    ensures
        view.declared_deps(deps) matches Ok(sets) ==> {
            &&& forall|i: int, k: int| #[trigger]
                is_wanted(view, deps, i, k) ==> is_listed(
                    set_for(sets, deps[i].dep_kinds[k].target),
                    deps[i].dep_kinds[k].kind,
                    buildable(view, view.package_with_id(deps[i].pkg)),
                )
            &&& forall|t: Option<Text>, d: BuildableDependencyView| #[trigger]
                is_listed_somewhere(set_for(sets, t), d) ==> comes_from(view, deps, d)
        },
    decreases deps.len(),
{
    if deps.len() > 0 && view.declared_deps(deps) is Ok {
        let front = deps.drop_last();
        let last = deps.last();
        let dep = view.package_with_id(last.pkg);
        lemma_declared_deps_list(view, front);
        let before = view.declared_deps(front)->Ok_0;
        let sets = view.declared_deps(deps)->Ok_0;
        lemma_with_kinds_lists(view, before, last.name, dep, last.dep_kinds);
        assert forall|i: int, k: int| #[trigger] is_wanted(view, deps, i, k) implies is_listed(
            set_for(sets, deps[i].dep_kinds[k].target),
            deps[i].dep_kinds[k].kind,
            buildable(view, view.package_with_id(deps[i].pkg)),
        ) by {
            if i < front.len() {
                assert(front[i] == deps[i]);
                assert(is_wanted(view, front, i, k));
            } else {
                assert(deps[i].dep_kinds[k] == last.dep_kinds[k]);
            }
        }
        assert forall|t: Option<Text>, d: BuildableDependencyView| #[trigger]
            is_listed_somewhere(set_for(sets, t), d) implies comes_from(view, deps, d) by {
            if is_listed_somewhere(set_for(before, t), d) {
                let i = choose|i: int|
                    0 <= i < front.len() && d == buildable(
                        view,
                        view.package_with_id((#[trigger] front[i]).pkg),
                    );
                assert(deps[i] == front[i]);
            } else {
                assert(d == buildable(view, view.package_with_id(deps[deps.len() - 1].pkg)));
            }
        }
    }
}

proof fn lemma_sorted_lists_list(set: CrateDependencyContextView)
    ensures
        forall|k: DependencyKind, d: BuildableDependencyView| #[trigger]
            is_listed(with_sorted_lists(set), k, d) <==> is_listed(set, k, d),
        forall|d: BuildableDependencyView| #[trigger]
            is_listed_somewhere(with_sorted_lists(set), d) <==> is_listed_somewhere(set, d),
{
    lemma_stable_sorted_keeps_items::<BuildableDependency>(set.dependencies);
    lemma_stable_sorted_keeps_items::<BuildableDependency>(set.proc_macro_dependencies);
    lemma_stable_sorted_keeps_items::<BuildableDependency>(set.build_dependencies);
    lemma_stable_sorted_keeps_items::<BuildableDependency>(set.build_proc_macro_dependencies);
    lemma_stable_sorted_keeps_items::<BuildableDependency>(set.dev_dependencies);
}

/// Putting the lists in order keeps the sets where they are.
pub proof fn lemma_set_for_sorted(sets: Seq<PlatformDepsView>, target: Option<Text>)
    ensures
        set_for(with_sorted_sets(sets), target) == with_sorted_lists(set_for(sets, target)),
    decreases sets.len(),
{
    let sorted = with_sorted_sets(sets);
    if sets.len() == 0 {
        assert(with_sorted_lists(CrateDependencyContext::nothing())
            =~= CrateDependencyContext::nothing());
    } else {
        assert(sorted.drop_first() =~= with_sorted_sets(sets.drop_first()));
        lemma_set_for_sorted(sets.drop_first(), target);
    }
}

/// No dependency of a crate is lost: each use that is wanted is listed for its platform where it
/// belongs. And none is made up: whatever is listed is a package that the crate depends on.
pub proof fn lemma_deps_are_those_of_the_node(
    view: CrateSubplannerView,
    i: int,
    k: int,
    target: Option<Text>,
    dep: BuildableDependencyView,
)
    requires
        view.deps() is Ok,
    ensures
        is_wanted(view, view.node.deps, i, k) ==> is_listed(
            set_for(view.deps()->Ok_0, view.node.deps[i].dep_kinds[k].target),
            view.node.deps[i].dep_kinds[k].kind,
            buildable(view, view.package_with_id(view.node.deps[i].pkg)),
        ),
        is_listed_somewhere(set_for(view.deps()->Ok_0, target), dep) ==> comes_from(
            view,
            view.node.deps,
            dep,
        ),
{
    let deps = view.node.deps;
    let sets = view.declared_deps(deps)->Ok_0;
    lemma_declared_deps_list(view, deps);
    lemma_set_for_sorted(sets, target);
    lemma_sorted_lists_list(set_for(sets, target));
    if is_wanted(view, deps, i, k) {
        let t = deps[i].dep_kinds[k].target;
        lemma_set_for_sorted(sets, t);
        lemma_sorted_lists_list(set_for(sets, t));
    }
}

} // verus!
