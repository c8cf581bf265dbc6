//! What a context says of the package of a crate: where it lies, what is built of it, and what else is
//! known of it.

use vstd::prelude::*;

use crate::context::{lemma_target_ranks, target_le, BuildableTarget, BuildableTargetView};
use crate::error::RazeErrorView;
use crate::metadata::TargetView;
use crate::paths::{
    bazel_path, components, is_bazel_form, lemma_bazel_path, lossy_text, part_text, written_text,
    PathPartView, WrittenPartView, WrittenPathView,
};
use crate::planning::crate_subplanner::{
    below_root, declared_targets, first_of_kind, library_name, nearest_root, targets_of_kinds,
    CrateSubplannerView,
};
use crate::planning::laws::{
    lemma_build_script, lemma_context_targets_in_order, lemma_first_of_kind, lemma_library_name,
};
use crate::planning::use_laws::{
    first_with_id, is_first_refused, is_refused_use, knows_every_dep,
    lemma_deps_are_listed_unless_refused, lemma_first_refused_use, refusal,
};
use crate::settings::GenMode;
use crate::sorting::{in_order, lemma_stable_sorted, lemma_stable_sorted_keeps_items};
use crate::text::{
    is_cut_at, lemma_replaced, lemma_text_order_total, sanitized, spliced, text_before, Text,
};

verus! {

/// The components of a path.
pub open spec fn parts_of(path: WrittenPathView) -> Seq<PathPartView> {
    Seq::new(path.parts.len(), |i: int| path.parts[i].part)
}

/// Whether `root` is the innermost of `roots` around a file: its first components, of which the
/// others are names.
pub open spec fn is_innermost(
    roots: Seq<Seq<PathPartView>>,
    path: Seq<PathPartView>,
    root: Seq<PathPartView>,
) -> bool {
    &&& root.len() < path.len()
    &&& root == path.take(root.len() as int)
    &&& forall|i: int|
        root.len() <= i < path.len() ==> (#[trigger] path[i] is Name || path[i] is Raw)
    &&& roots.contains(root)
    &&& forall|n: int| root.len() < n < path.len() ==> !roots.contains(#[trigger] path.take(n))
}

/// Whether `root` is what the sources of the crate's package lie below: for a Git repository that Bazel
/// fetches, the innermost one around the manifest; else the directory of the manifest.
pub open spec fn is_package_root(view: CrateSubplannerView, root: Seq<PathPartView>) -> bool {
    let manifest = parts_of(view.entry.package.manifest_path);
    if view.settings.genmode == GenMode::Remote && view.source_id is Some
        && view.source_id->Some_0.git {
        is_innermost(view.facts.git_roots, manifest, root)
    } else {
        root == manifest.drop_last()
    }
}

proof fn lemma_innermost(
    roots: Seq<Seq<PathPartView>>,
    path: Seq<PathPartView>,
    root: Seq<PathPartView>,
)
    ensures
        nearest_root(roots, path) == Some(root) <==> is_innermost(roots, path, root),
    decreases path.len(),
{
    if path.len() > 0 && (path.last() is Name || path.last() is Raw) {
        let outer = path.drop_last();
        assert(path.take(path.len() - 1) =~= outer);
        assert(path[path.len() - 1] == path.last());
        if roots.contains(outer) {
            if is_innermost(roots, path, root) {
                if root.len() < path.len() - 1 {
                    assert(!roots.contains(path.take(path.len() - 1)));
                }
            }
        } else {
            lemma_innermost(roots, outer, root);
            assert forall|n: int| 0 <= n <= outer.len() implies #[trigger] path.take(n)
                == outer.take(n) by {
                assert(path.take(n) =~= outer.take(n));
            }
            assert(forall|i: int| 0 <= i < outer.len() ==> #[trigger] path[i] == outer[i]);
            if is_innermost(roots, outer, root) {
                assert forall|n: int| root.len() < n < path.len() implies !roots.contains(
                    #[trigger] path.take(n),
                ) by {
                    if n < outer.len() {
                        assert(!roots.contains(outer.take(n)));
                    }
                }
                assert(is_innermost(roots, path, root));
            }
            if is_innermost(roots, path, root) {
                if root.len() == outer.len() {
                    assert(root == outer);
                }
                assert forall|i: int| root.len() <= i < outer.len() implies (
                #[trigger] outer[i] is Name || outer[i] is Raw) by {
                    assert(path[i] is Name || path[i] is Raw);
                }
                assert forall|n: int| root.len() < n < outer.len() implies !roots.contains(
                    #[trigger] outer.take(n),
                ) by {
                    assert(!roots.contains(path.take(n)));
                }
                assert(is_innermost(roots, outer, root));
            }
        }
    } else if path.len() > 0 {
        assert(path[path.len() - 1] == path.last());
    }
}

/// These are the components of a path.
pub proof fn lemma_parts(path: WrittenPathView)
    ensures
        components(path) == parts_of(path),
{
    assert(components(path) =~= parts_of(path));
}

/// What the sources of a package lie below is found exactly if it is there.
pub proof fn lemma_package_root(view: CrateSubplannerView, root: Seq<PathPartView>)
    ensures
        view.package_root(view.entry.package.manifest_path) == Ok::<
            Seq<PathPartView>,
            RazeErrorView,
        >(root)
            <==> is_package_root(view, root),
{
    let manifest = view.entry.package.manifest_path;
    lemma_parts(manifest);
    lemma_innermost(view.facts.git_roots, parts_of(manifest), root);
}

/// A path below a directory, or the whole path where it is not below it.
pub open spec fn path_below(path: Seq<PathPartView>, root: Seq<PathPartView>) -> Seq<PathPartView> {
    if root.len() <= path.len() && (forall|i: int|
        0 <= i < root.len() ==> #[trigger] path[i] == root[i]) {
        path.subrange(root.len() as int, path.len() as int)
    } else {
        path
    }
}

proof fn lemma_path_below(path: WrittenPathView, root: Seq<PathPartView>)
    ensures
        below_root(components(path), root) == path_below(parts_of(path), root),
{
    let parts = parts_of(path);
    lemma_parts(path);
    if root.is_prefix_of(parts) {
        assert forall|i: int| 0 <= i < root.len() implies #[trigger] parts[i] == root[i] by {
            assert(root[i] == parts.subrange(0, root.len() as int)[i]);
        }
        assert(parts.skip(root.len() as int) =~= path_below(parts, root));
    } else if root.len() <= parts.len() && (forall|i: int|
        0 <= i < root.len() ==> #[trigger] parts[i] == root[i]) {
        assert(root =~= parts.subrange(0, root.len() as int));
    }
}

/// How often `b` is one of the kinds of these targets: of its kind, with its name, its edition and its
/// path below the root, as Bazel writes it.
pub open spec fn times_declared(
    targets: Seq<TargetView>,
    root: Seq<PathPartView>,
    b: BuildableTargetView,
) -> nat
    decreases targets.len(),
{
    if targets.len() == 0 {
        0
    } else {
        let t = targets.last();
        times_declared(targets.drop_last(), root, b) + if t.name == b.name && t.edition == b.edition
            && is_bazel_form(path_below(parts_of(t.src_path), root), b.path) {
            t.kind.to_multiset().count(b.kind)
        } else {
            0nat
        }
    }
}

proof fn lemma_kinds_count(kinds: Seq<Text>, t: TargetView, path: Text, b: BuildableTargetView)
    ensures
        kinds.map_values(
            |kind: Text| BuildableTargetView { kind, name: t.name, path, edition: t.edition },
        ).to_multiset().count(b) == (if t.name == b.name && t.edition == b.edition && path
            == b.path {
            kinds.to_multiset().count(b.kind)
        } else {
            0nat
        }),
    decreases kinds.len(),
{
    broadcast use vstd::seq_lib::group_to_multiset_ensures;

    let f = |kind: Text| BuildableTargetView { kind, name: t.name, path, edition: t.edition };
    if kinds.len() == 0 {
        assert(kinds.map_values(f) =~= Seq::empty());
    } else {
        let front = kinds.drop_last();
        lemma_kinds_count(front, t, path, b);
        assert(kinds =~= front.push(kinds.last()));
        assert(kinds.map_values(f) =~= front.map_values(f).push(f(kinds.last())));
    }
}

proof fn lemma_declared_targets(
    targets: Seq<TargetView>,
    root: Seq<PathPartView>,
    b: BuildableTargetView,
)
    ensures
        declared_targets(targets, root) is Ok <==> forall|t: int|
            0 <= t < targets.len() ==> is_text(
                path_below(parts_of((#[trigger] targets[t]).src_path), root),
            ),
        declared_targets(targets, root) matches Ok(all) ==> all.to_multiset().count(b)
            == times_declared(targets, root, b),
    decreases targets.len(),
{
    broadcast use vstd::seq_lib::group_to_multiset_ensures;

    if targets.len() > 0 {
        let front = targets.drop_last();
        let last = targets.last();
        let path = path_below(parts_of(last.src_path), root);
        lemma_declared_targets(front, root, b);
        lemma_path_below(last.src_path, root);
        lemma_bazel_path(path, b.path);
        assert(targets[targets.len() - 1] == last);
        assert(forall|t: int| 0 <= t < front.len() ==> #[trigger] targets[t] == front[t]);
        if declared_targets(front, root) is Err {
            let t = choose|t: int|
                0 <= t < front.len() && !is_text(
                    path_below(parts_of((#[trigger] front[t]).src_path), root),
                );
            assert(targets[t] == front[t]);
        }
        if declared_targets(targets, root) is Ok {
            let before = declared_targets(front, root)->Ok_0;
            let text = bazel_path(path)->Some_0;
            lemma_kinds_count(last.kind, last, text, b);
            vstd::seq_lib::lemma_multiset_commutative(before, targets_of_kinds(last, text));
        }
    } else {
        assert(Seq::<BuildableTargetView>::empty().to_multiset().count(b) == 0);
    }
}

/// Whether every component of a path is text.
pub open spec fn is_text(path: Seq<PathPartView>) -> bool {
    forall|i: int| 0 <= i < path.len() ==> !(#[trigger] path[i] is Raw)
}

/// The targets of a context and its build script are what the package declares, one for each kind of
/// each target, whatever its kind: none is left out and none is added.
pub proof fn lemma_context_targets(
    view: CrateSubplannerView,
    root: Seq<PathPartView>,
    b: BuildableTargetView,
)
    requires
        view.context() is Ok,
        is_package_root(view, root),
    ensures
        ({
            let context = view.context()->Ok_0;
            context.targets.to_multiset().count(b) + (if context.build_script_target == Some(b) {
                1nat
            } else {
                0nat
            }) == times_declared(view.entry.package.targets, root, b)
        }),
{
    broadcast use vstd::seq_lib::group_to_multiset_ensures;

    lemma_package_root(view, root);
    let declared = declared_targets(view.entry.package.targets, root)->Ok_0;
    let all = view.targets(root)->Ok_0;
    lemma_declared_targets(view.entry.package.targets, root, b);
    lemma_target_ranks();
    lemma_stable_sorted::<BuildableTarget>(declared);
    lemma_build_script(view, all);
}

/// Whether the package declares a target of this kind.
pub open spec fn declares_kind(targets: Seq<TargetView>, kind: Text) -> bool {
    exists|t: int| 0 <= t < targets.len() && (#[trigger] targets[t]).kind.contains(kind)
}

proof fn lemma_declared_kinds(targets: Seq<TargetView>, root: Seq<PathPartView>, kind: Text)
    ensures
        declared_targets(targets, root) matches Ok(all) ==> (declares_kind(targets, kind)
            <==> exists|i: int| 0 <= i < all.len() && (#[trigger] all[i]).kind == kind),
    decreases targets.len(),
{
    if targets.len() > 0 && declared_targets(targets, root) is Ok {
        let front = targets.drop_last();
        let last = targets.last();
        lemma_declared_kinds(front, root, kind);
        let all = declared_targets(targets, root)->Ok_0;
        let before = declared_targets(front, root)->Ok_0;
        let text = bazel_path(below_root(components(last.src_path), root))->Some_0;
        let added = targets_of_kinds(last, text);
        assert(all == before + added);
        assert(targets[targets.len() - 1] == last);
        if declares_kind(targets, kind) {
            let t = choose|t: int|
                0 <= t < targets.len() && (#[trigger] targets[t]).kind.contains(kind);
            if t < front.len() {
                assert(front[t].kind.contains(kind));
                let i = choose|i: int| 0 <= i < before.len() && (#[trigger] before[i]).kind == kind;
                assert(all[i].kind == kind);
            } else {
                let k = choose|k: int| 0 <= k < last.kind.len() && last.kind[k] == kind;
                assert(added[k].kind == kind);
                assert(all[before.len() + k].kind == kind);
            }
        }
        if exists|i: int| 0 <= i < all.len() && (#[trigger] all[i]).kind == kind {
            let i = choose|i: int| 0 <= i < all.len() && (#[trigger] all[i]).kind == kind;
            if i < before.len() {
                assert(before[i].kind == kind);
                let t = choose|t: int|
                    0 <= t < front.len() && (#[trigger] front[t]).kind.contains(kind);
                assert(targets[t].kind.contains(kind));
            } else {
                assert(last.kind[i - before.len()] == kind);
                assert(targets[targets.len() - 1].kind.contains(kind));
            }
        }
    }
}

proof fn lemma_targets_of_kind(view: CrateSubplannerView, root: Seq<PathPartView>, kind: Text)
    requires
        view.context() is Ok,
        is_package_root(view, root),
    ensures
        view.targets(root) is Ok,
        declares_kind(view.entry.package.targets, kind) <==> exists|i: int|
            0 <= i < view.targets(root)->Ok_0.len() && (
            #[trigger] view.targets(root)->Ok_0[i]).kind == kind,
{
    lemma_package_root(view, root);
    let declared = declared_targets(view.entry.package.targets, root)->Ok_0;
    let all = view.targets(root)->Ok_0;
    lemma_declared_kinds(view.entry.package.targets, root, kind);
    lemma_target_ranks();
    lemma_stable_sorted_keeps_items::<BuildableTarget>(declared);
    if exists|i: int| 0 <= i < all.len() && (#[trigger] all[i]).kind == kind {
        let i = choose|i: int| 0 <= i < all.len() && (#[trigger] all[i]).kind == kind;
        assert(all.contains(all[i]));
        let j = choose|j: int| 0 <= j < declared.len() && declared[j] == all[i];
        assert(declared[j].kind == kind);
    }
    if exists|i: int| 0 <= i < declared.len() && (#[trigger] declared[i]).kind == kind {
        let i = choose|i: int| 0 <= i < declared.len() && (#[trigger] declared[i]).kind == kind;
        assert(declared.contains(declared[i]));
        assert(all.contains(declared[i]));
        let j = choose|j: int| 0 <= j < all.len() && all[j] == declared[i];
        assert(all[j].kind == kind);
    }
}

/// If the settings of a crate say whether its build script is built, it is built exactly if they say so
/// and the package declares one, whatever is set for other crates. Only if they say nothing, what is set
/// for all crates decides.
pub proof fn lemma_settings_decide_build_script(view: CrateSubplannerView)
    requires
        view.context() is Ok,
    ensures
        ({
            let script = view.context()->Ok_0.build_script_target;
            let declared = declares_kind(view.entry.package.targets, "custom-build"@);
            let said = if view.crate_settings is Some {
                view.crate_settings->Some_0.gen_buildrs
            } else {
                None
            };
            &&& said == Some(true) ==> (script is Some <==> declared)
            &&& said == Some(false) ==> script is None
            &&& said is None && view.settings.default_gen_buildrs ==> (script is Some <==> declared)
            &&& said is None && !view.settings.default_gen_buildrs ==> script is None
            &&& script is Some ==> script->Some_0.kind == "custom-build"@
        }),
{
    let root = view.package_root(view.entry.package.manifest_path)->Ok_0;
    lemma_package_root(view, root);
    lemma_targets_of_kind(view, root, "custom-build"@);
    let all = view.targets(root)->Ok_0;
    lemma_build_script(view, all);
}

/// Whether a target may stand in front of another: that with the lesser kind does; of the same kind
/// that with the lesser name; of the same name that with the lesser path; and of the same path that with
/// the lesser edition.
pub open spec fn target_may_precede(a: BuildableTargetView, b: BuildableTargetView) -> bool {
    ||| a == b
    ||| text_before(a.kind, b.kind)
    ||| a.kind == b.kind && text_before(a.name, b.name)
    ||| a.kind == b.kind && a.name == b.name && text_before(a.path, b.path)
    ||| a.kind == b.kind && a.name == b.name && a.path == b.path && text_before(
        a.edition,
        b.edition,
    )
}

proof fn lemma_target_may_precede(a: BuildableTargetView, b: BuildableTargetView)
    requires
        target_le(a, b),
    ensures
        target_may_precede(a, b),
{
    lemma_text_order_total(a.edition, b.edition);
    if a.kind == b.kind && a.name == b.name && a.path == b.path && a.edition == b.edition {
        assert(a =~= b);
    }
}

/// The targets of a context are in order.
pub proof fn lemma_context_targets_are_ordered(view: CrateSubplannerView, i: int, j: int)
    requires
        view.context() is Ok,
        0 <= i < j < view.context()->Ok_0.targets.len(),
    ensures
        target_may_precede(
            view.context()->Ok_0.targets[i],
            view.context()->Ok_0.targets[j],
        ),
{
    lemma_context_targets_in_order(view);
    let targets = view.context()->Ok_0.targets;
    assert(in_order::<BuildableTarget>(targets));
    assert(target_le(targets[i], targets[j]));
    lemma_target_may_precede(targets[i], targets[j]);
}

/// The build script of a context may stand in front of whatever other build scripts the package has.
pub proof fn lemma_build_script_is_first(view: CrateSubplannerView, i: int)
    requires
        view.context() is Ok,
        view.context()->Ok_0.build_script_target is Some,
        0 <= i < view.context()->Ok_0.targets.len(),
        view.context()->Ok_0.targets[i].kind == "custom-build"@,
    ensures
        target_may_precede(
            view.context()->Ok_0.build_script_target->Some_0,
            view.context()->Ok_0.targets[i],
        ),
{
    let root = view.package_root(view.entry.package.manifest_path)->Ok_0;
    let declared = declared_targets(view.entry.package.targets, root)->Ok_0;
    let all = view.targets(root)->Ok_0;
    lemma_target_ranks();
    lemma_stable_sorted::<BuildableTarget>(declared);
    lemma_first_of_kind(all, "custom-build"@);
    let at = first_of_kind(all, "custom-build"@);
    assert(in_order::<BuildableTarget>(all));
    let j = if i < at {
        i
    } else {
        i + 1
    };
    assert(all.remove(at)[i] == all[j]);
    assert(all[j].kind == "custom-build"@);
    assert(target_le(all[at], all[j]));
    lemma_target_may_precede(all[at], all[j]);
}

proof fn lemma_library_at(targets: Seq<BuildableTargetView>, i: int)
    requires
        0 <= i < targets.len(),
        targets[i].kind == "lib"@ || targets[i].kind == "proc-macro"@,
        forall|h: int|
            0 <= h < i ==> (#[trigger] targets[h]).kind != "lib"@ && targets[h].kind
                != "proc-macro"@,
    ensures
        library_name(targets) == Some(targets[i].name),
    decreases targets.len(),
{
    if i > 0 {
        assert(targets[0].kind != "lib"@);
        let rest = targets.drop_first();
        assert forall|h: int| 0 <= h < i - 1 implies (#[trigger] rest[h]).kind != "lib"@
            && rest[h].kind != "proc-macro"@ by {
            assert(rest[h] == targets[h + 1]);
        }
        lemma_library_at(rest, i - 1);
    }
}

/// A crate has a library exactly if its package declares a target which is a library or a procedural
/// macro. Its name is that of the first such target of the context.
pub proof fn lemma_context_library(view: CrateSubplannerView, i: int)
    requires
        view.context() is Ok,
    ensures
        ({
            let context = view.context()->Ok_0;
            let targets = context.targets;
            &&& context.lib_target_name is Some <==> declares_kind(
                view.entry.package.targets,
                "lib"@,
            ) || declares_kind(view.entry.package.targets, "proc-macro"@)
            &&& 0 <= i < targets.len() && (targets[i].kind == "lib"@ || targets[i].kind
                == "proc-macro"@) && (forall|h: int|
                0 <= h < i ==> (#[trigger] targets[h]).kind != "lib"@ && targets[h].kind
                    != "proc-macro"@) ==> context.lib_target_name == Some(targets[i].name)
        }),
{
    let root = view.package_root(view.entry.package.manifest_path)->Ok_0;
    let context = view.context()->Ok_0;
    let targets = context.targets;
    lemma_package_root(view, root);
    lemma_targets_of_kind(view, root, "lib"@);
    lemma_targets_of_kind(view, root, "proc-macro"@);
    let all = view.targets(root)->Ok_0;
    lemma_first_of_kind(all, "custom-build"@);
    let at = first_of_kind(all, "custom-build"@);
    let taken = context.build_script_target is Some;
    reveal_strlit("custom-build");
    reveal_strlit("proc-macro");
    reveal_strlit("lib");
    assert("custom-build"@.len() == 12);
    assert("proc-macro"@.len() == 10);
    assert("lib"@.len() == 3);
    assert((exists|a: int|
        0 <= a < all.len() && ((#[trigger] all[a]).kind == "lib"@ || all[a].kind == "proc-macro"@))
        <==> exists|a: int|
        0 <= a < targets.len() && ((#[trigger] targets[a]).kind == "lib"@ || targets[a].kind
            == "proc-macro"@)) by {
        if exists|a: int|
            0 <= a < all.len() && ((#[trigger] all[a]).kind == "lib"@ || all[a].kind
                == "proc-macro"@) {
            let a = choose|a: int|
                0 <= a < all.len() && ((#[trigger] all[a]).kind == "lib"@ || all[a].kind
                    == "proc-macro"@);
            let b = if taken && at < a {
                a - 1
            } else {
                a
            };
            assert(targets[b] == all[a]);
        }
        if exists|a: int|
            0 <= a < targets.len() && ((#[trigger] targets[a]).kind == "lib"@ || targets[a].kind
                == "proc-macro"@) {
            let a = choose|a: int|
                0 <= a < targets.len() && ((#[trigger] targets[a]).kind == "lib"@
                    || targets[a].kind == "proc-macro"@);
            let b = if taken && at <= a {
                a + 1
            } else {
                a
            };
            assert(all[b] == targets[a]);
        }
    }
    lemma_library_name(targets);
    if 0 <= i < targets.len() && (targets[i].kind == "lib"@ || targets[i].kind == "proc-macro"@)
        && (forall|h: int|
        0 <= h < i ==> (#[trigger] targets[h]).kind != "lib"@ && targets[h].kind
            != "proc-macro"@) {
        lemma_library_at(targets, i);
    }
}

/// Whether the context of a crate can be made: it is known how sources get into the workspace and what
/// the sources of the package lie below, the paths of its targets are text, and every use of a
/// dependency can be accepted.
pub open spec fn can_be_planned(view: CrateSubplannerView, root: Seq<PathPartView>) -> bool {
    &&& view.settings.genmode != GenMode::Unspecified
    &&& is_package_root(view, root)
    &&& forall|t: int|
        0 <= t < view.entry.package.targets.len() ==> is_text(
            path_below(parts_of((#[trigger] view.entry.package.targets[t]).src_path), root),
        )
    &&& forall|i: int, k: int| !#[trigger] is_refused_use(view, i, k)
}

/// The context of a crate is made exactly if it can be.
pub proof fn lemma_context_is_made_if_it_can_be(view: CrateSubplannerView)
    requires
        knows_every_dep(view),
    ensures
        view.context() is Ok <==> exists|root: Seq<PathPartView>| can_be_planned(view, root),
{
    let b = BuildableTargetView {
        kind: Seq::empty(),
        name: Seq::empty(),
        path: Seq::empty(),
        edition: Seq::empty(),
    };
    let manifest = view.entry.package.manifest_path;
    lemma_deps_are_listed_unless_refused(view);
    if view.package_root(manifest) is Ok {
        let root = view.package_root(manifest)->Ok_0;
        lemma_package_root(view, root);
        lemma_declared_targets(view.entry.package.targets, root, b);
        if view.context() is Ok {
            assert(can_be_planned(view, root));
        }
    }
    if exists|root: Seq<PathPartView>| can_be_planned(view, root) {
        let root = choose|root: Seq<PathPartView>| can_be_planned(view, root);
        lemma_package_root(view, root);
        lemma_declared_targets(view.entry.package.targets, root, b);
    }
}

/// A context says of a crate what its package, its node in the dependency graph and the settings say:
/// what it is called, what it is built with, and whether the root depends on it.
pub proof fn lemma_context_says_what_is_known(view: CrateSubplannerView)
    requires
        view.context() is Ok,
    ensures
        ({
            let context = view.context()->Ok_0;
            let package = view.entry.package;
            &&& context.pkg_name == package.name
            &&& context.pkg_version == package.version
            &&& context.edition == package.edition
            &&& package.license is Some ==> Some(context.license.license) == package.license
            &&& package.license is None ==> context.license.license.len() == 0
            &&& context.features == view.node.features
            &&& context.is_root_dependency == view.entry.is_root_dep
            &&& context.sha256 == view.sha256
            &&& view.crate_settings is Some ==> Some(context.raze_settings) == view.crate_settings
            &&& view.crate_settings is None ==> {
                let s = context.raze_settings;
                &&& s.additional_deps.len() == 0 && s.skipped_deps.len() == 0
                &&& s.extra_aliased_targets.len() == 0 && s.additional_flags.len() == 0
                &&& s.gen_buildrs is None && s.data_attr is None
                &&& s.additional_build_file is None && s.patch_tool is None
                &&& s.patches.len() == 0 && s.patch_cmds.len() == 0 && s.patch_cmds_win.len() == 0
            }
        }),
{
}

/// The path of a crate in the Bazel workspace and that of its build file are made of its name and
/// version: those of a crate that Bazel fetches name its repository; those of a vendored one lie below
/// the directory of the workspace.
pub proof fn lemma_context_paths(view: CrateSubplannerView)
    requires
        view.context() is Ok,
    ensures
        ({
            let context = view.context()->Ok_0;
            let package = view.entry.package;
            let ident = package.name + "-"@ + package.version;
            let base = view.settings.workspace_path;
            &&& view.settings.genmode == GenMode::Remote ==> {
                &&& context.workspace_path_to_crate == "@"@ + (view.settings.gen_workspace_prefix
                    + "__"@ + sanitized(package.name) + "__"@ + sanitized(package.version)) + "//"@
                &&& context.expected_build_path == "remote/BUILD."@ + ident + ".bazel"@
            }
            &&& view.settings.genmode == GenMode::Vendored ==> {
                &&& "//"@.is_suffix_of(base) ==> context.workspace_path_to_crate == base
                    + "vendor/"@ + ident
                &&& !"//"@.is_suffix_of(base) ==> context.workspace_path_to_crate == base + "/"@
                    + "vendor/"@ + ident
                &&& context.expected_build_path == "vendor/"@ + ident + "/"@
                    + view.settings.output_buildfile_suffix
            }
            &&& view.settings.genmode != GenMode::Unspecified
        }),
{
}

/// The URL of a crate is that of the registry, cut wherever it says `{crate}`, with the name there, and
/// that cut wherever it then says `{version}`, with the version there.
pub proof fn lemma_context_registry_url(view: CrateSubplannerView) -> (cuts: (Seq<Text>, Seq<Text>))
    requires
        view.context() is Ok,
    ensures
        ({
            let named = spliced(cuts.0, view.entry.package.name);
            &&& is_cut_at(view.settings.registry, "{crate}"@, cuts.0)
            &&& is_cut_at(named, "{version}"@, cuts.1)
            &&& view.context()->Ok_0.registry_url == spliced(cuts.1, view.entry.package.version)
        }),
{
    reveal_strlit("{crate}");
    reveal_strlit("{version}");
    let names = lemma_replaced(view.settings.registry, "{crate}"@, view.entry.package.name);
    let named = spliced(names, view.entry.package.name);
    let versions = lemma_replaced(named, "{version}"@, view.entry.package.version);
    (names, versions)
}

/// Components of a path, each behind what stands in front of it.
pub open spec fn behind_gaps(parts: Seq<WrittenPartView>) -> Text
    decreases parts.len(),
{
    if parts.len() == 0 {
        Seq::empty()
    } else {
        let text = match parts[0].part {
            PathPartView::Prefix(text) => text,
            PathPartView::Root(text) => text,
            PathPartView::Name(text) => text,
            PathPartView::Raw(bytes) => lossy_text(bytes),
        };
        parts[0].gap + text + behind_gaps(parts.drop_first())
    }
}

proof fn lemma_behind_gaps(parts: Seq<WrittenPartView>, last: WrittenPartView)
    ensures
        behind_gaps(parts.push(last)) == behind_gaps(parts) + (last.gap + part_text(last.part)),
    decreases parts.len(),
{
    reveal_with_fuel(behind_gaps, 2);
    let all = parts.push(last);
    if parts.len() == 0 {
        assert(all.drop_first() =~= Seq::empty());
        assert(behind_gaps(all) =~= behind_gaps(parts) + (last.gap + part_text(last.part)));
    } else {
        lemma_behind_gaps(parts.drop_first(), last);
        assert(all.drop_first() =~= parts.drop_first().push(last));
        assert(behind_gaps(all) =~= behind_gaps(parts) + (last.gap + part_text(last.part)));
    }
}

/// A path as it is written is its components, each behind what stands in front of it, but for what
/// stands in front of the first.
pub proof fn lemma_written_text(parts: Seq<WrittenPartView>)
    ensures
        parts.len() > 0 ==> parts[0].gap + written_text(parts) == behind_gaps(parts),
        parts.len() == 0 ==> written_text(parts).len() == 0,
    decreases parts.len(),
{
    if parts.len() > 0 {
        let front = parts.drop_last();
        assert(front.push(parts.last()) =~= parts);
        lemma_behind_gaps(front, parts.last());
        if parts.len() == 1 {
            assert(front =~= Seq::empty());
            assert(parts[0].gap + written_text(parts) =~= behind_gaps(parts));
        } else {
            lemma_written_text(front);
            assert(front[0] == parts[0]);
            assert(parts[0].gap + written_text(parts) =~= behind_gaps(parts));
        }
    }
}

/// What a context says of the source of a crate: nothing, unless it is a Git repository; of one, its URL
/// and revision, and the path from the root of the package to the directory of its manifest, if that is
/// not the root itself.
pub proof fn lemma_context_source(view: CrateSubplannerView, root: Seq<PathPartView>)
    requires
        view.context() is Ok,
        is_package_root(view, root),
    ensures
        ({
            let data = view.context()->Ok_0.source_details.git_data;
            let parts = view.entry.package.manifest_path.parts;
            let rest = parts.subrange(root.len() as int, parts.len() - 1);
            &&& data is Some <==> view.source_id is Some && view.source_id->Some_0.git
            &&& data is Some && root.len() < parts.len() ==> {
                &&& data->Some_0.remote == view.source_id->Some_0.url
                &&& view.source_id->Some_0.precise is Some ==> Some(data->Some_0.commit)
                    == view.source_id->Some_0.precise
                &&& data->Some_0.path_to_crate_root is None <==> root.len() == parts.len() - 1
                &&& data->Some_0.path_to_crate_root is Some ==> rest[0].gap
                    + data->Some_0.path_to_crate_root->Some_0 == behind_gaps(rest)
            }
        }),
{
    let parts = view.entry.package.manifest_path.parts;
    lemma_package_root(view, root);
    if root.len() < parts.len() {
        let rest = parts.drop_last().skip(root.len() as int);
        assert(rest =~= parts.subrange(root.len() as int, parts.len() - 1));
        lemma_written_text(rest);
    }
}

/// Whether the path of the `t`th target is the first that is not text.
pub open spec fn is_first_unwritable(
    targets: Seq<TargetView>,
    root: Seq<PathPartView>,
    t: int,
) -> bool {
    &&& 0 <= t < targets.len()
    &&& !is_text(path_below(parts_of(targets[t].src_path), root))
    &&& forall|h: int|
        0 <= h < t ==> is_text(path_below(parts_of((#[trigger] targets[h]).src_path), root))
}

proof fn lemma_first_unwritable(targets: Seq<TargetView>, root: Seq<PathPartView>) -> (t: int)
    requires
        declared_targets(targets, root) is Err,
    ensures
        is_first_unwritable(targets, root, t),
        declared_targets(targets, root)->Err_0 == RazeErrorView::InvalidData(
            targets[t].src_path.printed
                + " contains non UTF-8 characters and is not a legal path in Bazel"@,
        ),
    decreases targets.len(),
{
    let b = BuildableTargetView {
        kind: Seq::empty(),
        name: Seq::empty(),
        path: Seq::empty(),
        edition: Seq::empty(),
    };
    let front = targets.drop_last();
    let n = targets.len() - 1;
    lemma_declared_targets(targets, root, b);
    lemma_declared_targets(front, root, b);
    assert(forall|h: int| 0 <= h < n ==> #[trigger] targets[h] == front[h]);
    if declared_targets(front, root) is Err {
        let t = lemma_first_unwritable(front, root);
        assert(targets[t] == front[t]);
        t
    } else {
        assert forall|h: int| 0 <= h < n implies is_text(
            path_below(parts_of((#[trigger] targets[h]).src_path), root),
        ) by {
            assert(front[h] == targets[h]);
        }
        lemma_path_below(targets[n].src_path, root);
        lemma_bazel_path(path_below(parts_of(targets[n].src_path), root), b.path);
        n
    }
}

/// Why there is no context: nothing that the sources lie below was found; else the path of a target is
/// not text, and the first such path is told; else a use of a dependency was refused, and the first such
/// use is told; else nobody said how sources get into the workspace.
pub proof fn lemma_why_there_is_no_context(view: CrateSubplannerView)
    requires
        knows_every_dep(view),
        view.context() is Err,
    ensures
        ({
            let error = view.context()->Err_0;
            let manifest = view.entry.package.manifest_path;
            let targets = view.entry.package.targets;
            ||| error == RazeErrorView::Generic(
                "Unable to locate git repository root for manifest at "@ + manifest.printed + ". "@
                    + "Please file an issue at github.com/google/cargo-raze with details."@,
            ) && forall|root: Seq<PathPartView>| !#[trigger] is_package_root(view, root)
            ||| exists|root: Seq<PathPartView>, t: int|
                is_package_root(view, root) && #[trigger] is_first_unwritable(targets, root, t)
                    && error == RazeErrorView::InvalidData(
                    targets[t].src_path.printed
                        + " contains non UTF-8 characters and is not a legal path in Bazel"@,
                )
            ||| exists|root: Seq<PathPartView>, i: int, k: int|
                #[trigger] is_package_root(view, root) && all_are_text(targets, root)
                    && #[trigger] is_first_refused(view, i, k) && error == refusal(
                    view,
                    first_with_id(view.catalog.packages, view.node.deps[i].pkg),
                    view.node.deps[i].name,
                    view.node.deps[i].dep_kinds[k].kind,
                )
            ||| view.settings.genmode == GenMode::Unspecified && error == RazeErrorView::Generic(
                "Unable to determine the path of a crate. GenMode unspecified"@,
            ) && (forall|i: int, k: int| !#[trigger] is_refused_use(view, i, k))
                && exists|root: Seq<PathPartView>|
                #[trigger] is_package_root(view, root) && all_are_text(targets, root)
        }),
{
    let manifest = view.entry.package.manifest_path;
    let targets = view.entry.package.targets;
    let b = BuildableTargetView {
        kind: Seq::empty(),
        name: Seq::empty(),
        path: Seq::empty(),
        edition: Seq::empty(),
    };
    if view.package_root(manifest) is Err {
        assert forall|root: Seq<PathPartView>| !#[trigger] is_package_root(view, root) by {
            lemma_package_root(view, root);
        }
    } else {
        let root = view.package_root(manifest)->Ok_0;
        lemma_package_root(view, root);
        lemma_declared_targets(targets, root, b);
        lemma_deps_are_listed_unless_refused(view);
        if declared_targets(targets, root) is Err {
            let t = lemma_first_unwritable(targets, root);
        } else {
            assert(all_are_text(targets, root));
            if view.deps() is Err {
                let (i, k) = lemma_first_refused_use(view);
                assert(is_first_refused(view, i, k));
            }
        }
    }
}

/// Whether the path of each of these targets is text.
pub open spec fn all_are_text(targets: Seq<TargetView>, root: Seq<PathPartView>) -> bool {
    forall|t: int|
        0 <= t < targets.len() ==> is_text(
            path_below(parts_of((#[trigger] targets[t]).src_path), root),
        )
}

} // verus!
