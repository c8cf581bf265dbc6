//! Which settings and which checksum a package gets.

use vstd::prelude::*;

use crate::error::RazeErrorView;
use crate::metadata::{CargoWorkspaceFilesView, LockedPackageView, PackageView};
use crate::planning::checksums::{
    checksums_of_files, requests_for, wanted_checksums, with_indexed, with_locked, Checksums,
};
use crate::planning::facts::{find_index_checksum, IndexChecksumView, WorkspaceFactsView};
use crate::planning::workspace_subplanner::{
    matching_settings, settings_for, versions_for, WorkspaceSubplannerView,
};
use crate::settings::{
    BinaryDependencyView, CrateSettingsView, GenMode, NamedCrateSettingsView, RazeSettingsView,
    VersionedCrateSettingsView,
};
use crate::text::{lemma_joined, spliced, Text};
use crate::version::{version_error, version_req_display, version_req_matches};

verus! {

/// Whether the settings at `i` are the first for crates of this name.
pub open spec fn is_first_named(crates: Seq<NamedCrateSettingsView>, name: Text, i: int) -> bool {
    &&& 0 <= i < crates.len()
    &&& crates[i].name == name
    &&& forall|h: int| 0 <= h < i ==> (#[trigger] crates[h]).name != name
}

/// Whether the `j`th of the settings at `i`, which are the first with the name of the package, are for
/// its version.
pub open spec fn is_for_package(
    crates: Seq<NamedCrateSettingsView>,
    package: PackageView,
    i: int,
    j: int,
) -> bool {
    &&& is_first_named(crates, package.name, i)
    &&& 0 <= j < crates[i].versions.len()
    &&& version_req_matches(crates[i].versions[j].req, package.version)
}

/// Whether these are the settings of a package: the only ones that are for its version, or none if
/// there are none.
pub open spec fn are_settings_of(
    crates: Seq<NamedCrateSettingsView>,
    package: PackageView,
    settings: Option<CrateSettingsView>,
) -> bool {
    match settings {
        Some(s) => exists|i: int, j: int|
            {
                &&& #[trigger] is_for_package(crates, package, i, j)
                &&& crates[i].versions[j].settings == s
                &&& forall|h: int| #[trigger] is_for_package(crates, package, i, h) ==> h == j
            },
        None => forall|i: int, j: int| !#[trigger] is_for_package(crates, package, i, j),
    }
}

proof fn lemma_versions_at(crates: Seq<NamedCrateSettingsView>, name: Text, i: int)
    requires
        is_first_named(crates, name, i),
    ensures
        versions_for(crates, name) == crates[i].versions,
    decreases crates.len(),
{
    if i > 0 {
        assert(crates[0].name != name);
        let rest = crates.drop_first();
        assert forall|h: int| 0 <= h < i - 1 implies (#[trigger] rest[h]).name != name by {
            assert(rest[h] == crates[h + 1]);
        }
        lemma_versions_at(rest, name, i - 1);
    }
}

proof fn lemma_no_versions(crates: Seq<NamedCrateSettingsView>, name: Text)
    ensures
        (exists|i: int| is_first_named(crates, name, i)) || versions_for(crates, name).len() == 0,
    decreases crates.len(),
{
    if crates.len() > 0 {
        if crates[0].name == name {
            assert(is_first_named(crates, name, 0));
        } else {
            let rest = crates.drop_first();
            lemma_no_versions(rest, name);
            if exists|i: int| is_first_named(rest, name, i) {
                let i = choose|i: int| is_first_named(rest, name, i);
                assert forall|h: int| 0 <= h < i + 1 implies (#[trigger] crates[h]).name != name by {
                    if h > 0 {
                        assert(rest[h - 1] == crates[h]);
                    }
                }
                assert(is_first_named(crates, name, i + 1));
            }
        }
    }
}

proof fn lemma_matching(versions: Seq<VersionedCrateSettingsView>, version: Text)
    ensures
        ({
            let kept = matching_settings(versions, version);
            &&& kept.len() == 0 <==> forall|j: int|
                0 <= j < versions.len() ==> !version_req_matches(
                    (#[trigger] versions[j]).req,
                    version,
                )
            &&& kept.len() == 1 ==> exists|j: int|
                0 <= j < versions.len() && kept[0] == #[trigger] versions[j]
                    && version_req_matches(versions[j].req, version) && forall|h: int|
                    0 <= h < versions.len() && version_req_matches(
                        (#[trigger] versions[h]).req,
                        version,
                    ) ==> h == j
            &&& kept.len() > 1 ==> exists|h: int, j: int|
                0 <= h < j < versions.len() && version_req_matches(
                    (#[trigger] versions[h]).req,
                    version,
                ) && version_req_matches((#[trigger] versions[j]).req, version)
        }),
    decreases versions.len(),
{
    reveal(Seq::filter);
    if versions.len() > 0 {
        let front = versions.drop_last();
        let last = versions.last();
        let kept = matching_settings(versions, version);
        let before = matching_settings(front, version);
        lemma_matching(front, version);
        assert(versions[versions.len() - 1] == last);
        assert(forall|j: int| 0 <= j < front.len() ==> #[trigger] versions[j] == front[j]);
        if version_req_matches(last.req, version) {
            assert(kept == before.push(last));
            if before.len() == 0 {
                assert forall|h: int|
                    0 <= h < versions.len() && version_req_matches(
                        (#[trigger] versions[h]).req,
                        version,
                    ) implies h == versions.len() - 1 by {
                    if h < front.len() {
                        assert(front[h] == versions[h]);
                    }
                }
                assert(kept[0] == versions[versions.len() - 1]);
            } else {
                assert(exists|j: int|
                    0 <= j < front.len() && version_req_matches((#[trigger] front[j]).req, version));
                let j = choose|j: int|
                    0 <= j < front.len() && version_req_matches((#[trigger] front[j]).req, version);
                assert(versions[j] == front[j]);
            }
        } else {
            assert(kept == before);
            if before.len() == 0 {
                assert forall|j: int| 0 <= j < versions.len() implies !version_req_matches(
                    (#[trigger] versions[j]).req,
                    version,
                ) by {
                    if j < front.len() {
                        assert(front[j] == versions[j]);
                    }
                }
            } else if before.len() == 1 {
                let j = choose|j: int|
                    0 <= j < front.len() && before[0] == #[trigger] front[j]
                        && version_req_matches(front[j].req, version) && forall|h: int|
                        0 <= h < front.len() && version_req_matches(
                            (#[trigger] front[h]).req,
                            version,
                        ) ==> h == j;
                assert(versions[j] == front[j]);
                assert forall|h: int|
                    0 <= h < versions.len() && version_req_matches(
                        (#[trigger] versions[h]).req,
                        version,
                    ) implies h == j by {
                    if h < front.len() {
                        assert(front[h] == versions[h]);
                    }
                }
                assert(kept[0] == versions[j]);
            } else {
                let (h, j) = choose|h: int, j: int|
                    0 <= h < j < front.len() && version_req_matches(
                        (#[trigger] front[h]).req,
                        version,
                    ) && version_req_matches((#[trigger] front[j]).req, version);
                assert(versions[h] == front[h] && versions[j] == front[j]);
            }
        }
    }
}

/// A package gets the settings that are for its version, among the first with its name, if there are
/// such and no others are for it; none if there are none; and an error if there are several.
pub proof fn lemma_settings_of_package(
    crates: Seq<NamedCrateSettingsView>,
    package: PackageView,
    settings: Option<CrateSettingsView>,
)
    ensures
        settings_for(crates, package) == Ok::<Option<CrateSettingsView>, RazeErrorView>(settings)
            <==> are_settings_of(crates, package, settings),
        settings_for(crates, package) is Err <==> exists|i: int, h: int, j: int|
            h < j && #[trigger] is_for_package(crates, package, i, h)
                && #[trigger] is_for_package(crates, package, i, j),
        settings_for(crates, package) matches Err(error) ==> error is Config,
{
    let name = package.name;
    let version = package.version;
    let versions = versions_for(crates, name);
    let kept = matching_settings(versions, version);
    lemma_no_versions(crates, name);
    lemma_matching(versions, version);
    if exists|i: int| is_first_named(crates, name, i) {
        let i = choose|i: int| is_first_named(crates, name, i);
        lemma_versions_at(crates, name, i);
        assert forall|a: int, j: int| #[trigger] is_for_package(crates, package, a, j) implies a == i
            && 0 <= j < versions.len() && version_req_matches(versions[j].req, version) by {
            if a < i {
                assert(crates[a].name != name);
            }
            if i < a {
                assert(crates[i].name != name);
            }
        }
        assert forall|j: int|
            0 <= j < versions.len() && version_req_matches((#[trigger] versions[j]).req, version)
            implies is_for_package(crates, package, i, j) by {}
        if kept.len() == 1 {
            let j = choose|j: int|
                0 <= j < versions.len() && kept[0] == #[trigger] versions[j]
                    && version_req_matches(versions[j].req, version) && forall|h: int|
                    0 <= h < versions.len() && version_req_matches(
                        (#[trigger] versions[h]).req,
                        version,
                    ) ==> h == j;
            assert(is_for_package(crates, package, i, j));
            assert(are_settings_of(crates, package, Some(versions[j].settings)));
        } else if kept.len() > 1 {
            let (h, j) = choose|h: int, j: int|
                0 <= h < j < versions.len() && version_req_matches(
                    (#[trigger] versions[h]).req,
                    version,
                ) && version_req_matches((#[trigger] versions[j]).req, version);
            assert(is_for_package(crates, package, i, h));
            assert(is_for_package(crates, package, i, j));
        }
    } else {
        assert forall|i: int, j: int| !#[trigger] is_for_package(crates, package, i, j) by {}
    }
}

/// What is said where several of the settings at `i` are for the version of a package: the requirements
/// of all of them, in their order, and the name of the package.
pub open spec fn ambiguity(
    crates: Seq<NamedCrateSettingsView>,
    package: PackageView,
    i: int,
) -> RazeErrorView {
    let matching = crates[i].versions.filter(
        |v: VersionedCrateSettingsView| version_req_matches(v.req, package.version),
    );
    RazeErrorView::Config {
        field_path_opt: None,
        message: "Multiple potential semver matches `["@ + spliced(
            matching.map_values(|v: VersionedCrateSettingsView| version_req_display(v.req)),
            ", "@,
        ) + "]` found for `"@ + package.name + "`"@,
    }
}

/// Where several settings are for the version of a package, the error tells so.
pub proof fn lemma_ambiguous_settings(
    crates: Seq<NamedCrateSettingsView>,
    package: PackageView,
    i: int,
)
    requires
        is_first_named(crates, package.name, i),
        settings_for(crates, package) is Err,
    ensures
        settings_for(crates, package)->Err_0 == ambiguity(crates, package, i),
{
    lemma_versions_at(crates, package.name, i);
    lemma_joined(
        crates[i].versions.filter(
            |v: VersionedCrateSettingsView| version_req_matches(v.req, package.version),
        ).map_values(|v: VersionedCrateSettingsView| version_req_display(v.req)),
        ", "@,
    );
}

/// The packages of the lock file among some files, if there is one and it can be read.
pub open spec fn locked_packages(files: CargoWorkspaceFilesView) -> Seq<LockedPackageView> {
    if files.lock_file_opt is Some && files.lock_file_opt->Some_0.packages is Ok {
        files.lock_file_opt->Some_0.packages->Ok_0
    } else {
        Seq::empty()
    }
}

/// Whether the package at `p` has this name, this version and a checksum.
pub open spec fn has_checksum(
    packages: Seq<LockedPackageView>,
    p: int,
    name: Text,
    version: Text,
) -> bool {
    &&& 0 <= p < packages.len()
    &&& packages[p].name == name
    &&& packages[p].version == version
    &&& packages[p].checksum is Some
}

/// Whether the lock file among the files at `f` has a checksum at `p` for this name and version, and
/// neither it behind that nor the lock file of later files has another.
pub open spec fn is_last_locked(
    files: Seq<CargoWorkspaceFilesView>,
    f: int,
    p: int,
    name: Text,
    version: Text,
) -> bool {
    &&& 0 <= f < files.len()
    &&& has_checksum(locked_packages(files[f]), p, name, version)
    &&& forall|q: int|
        p < q ==> !#[trigger] has_checksum(locked_packages(files[f]), q, name, version)
    &&& forall|g: int, q: int|
        f < g < files.len() ==> !#[trigger] has_checksum(
            locked_packages(files[g]),
            q,
            name,
            version,
        )
}

/// Whether some lock file has a checksum for this name and version.
pub open spec fn is_locked(files: Seq<CargoWorkspaceFilesView>, name: Text, version: Text) -> bool {
    exists|f: int, p: int|
        0 <= f < files.len() && #[trigger] has_checksum(
            locked_packages(files[f]),
            p,
            name,
            version,
        )
}

/// Whether every package with a checksum has a version that can be read.
pub open spec fn are_versioned(packages: Seq<LockedPackageView>) -> bool {
    forall|p: int|
        0 <= p < packages.len() && (#[trigger] packages[p]).checksum is Some ==> version_error(
            packages[p].version,
        ) is None
}

proof fn lemma_locked(
    table: Checksums,
    packages: Seq<LockedPackageView>,
    name: Text,
    version: Text,
)
    ensures
        with_locked(table, packages) is Ok <==> are_versioned(packages),
        with_locked(table, packages) matches Ok(after) ==> {
            ||| (forall|p: int| !#[trigger] has_checksum(packages, p, name, version)) && after.get(
                (name, version),
            ) == table.get((name, version))
            ||| exists|p: int|
                {
                    &&& #[trigger] has_checksum(packages, p, name, version)
                    &&& forall|q: int|
                        p < q ==> !#[trigger] has_checksum(packages, q, name, version)
                    &&& after.get((name, version)) == packages[p].checksum
                }
        },
    decreases packages.len(),
{
    if packages.len() > 0 {
        let front = packages.drop_last();
        let last = packages.last();
        let n = packages.len() - 1;
        lemma_locked(table, front, name, version);
        assert(packages[n] == last);
        assert(forall|p: int| 0 <= p < n ==> #[trigger] packages[p] == front[p]);
        assert forall|p: int| p != n implies (#[trigger] has_checksum(packages, p, name, version)
            <==> has_checksum(front, p, name, version)) by {}
        if !are_versioned(front) {
            let p = choose|p: int|
                0 <= p < front.len() && (#[trigger] front[p]).checksum is Some && version_error(
                    front[p].version,
                ) is Some;
            assert(packages[p] == front[p]);
            assert(!are_versioned(packages));
        } else {
            assert(are_versioned(packages) <==> (last.checksum is Some ==> version_error(
                last.version,
            ) is None)) by {
                if last.checksum is Some ==> version_error(last.version) is None {
                    assert forall|p: int|
                        0 <= p < packages.len() && (#[trigger] packages[p]).checksum is Some
                        implies version_error(packages[p].version) is None by {
                        if p < n {
                            assert(front[p] == packages[p]);
                        }
                    }
                }
            }
        }
        if with_locked(table, packages) is Ok {
            let before = with_locked(table, front)->Ok_0;
            let after = with_locked(table, packages)->Ok_0;
            if has_checksum(packages, n, name, version) {
                assert(after.get((name, version)) == packages[n].checksum);
            } else if exists|p: int|
                {
                    &&& #[trigger] has_checksum(front, p, name, version)
                    &&& forall|q: int| p < q ==> !#[trigger] has_checksum(front, q, name, version)
                    &&& before.get((name, version)) == front[p].checksum
                } {
                let p = choose|p: int|
                    {
                        &&& #[trigger] has_checksum(front, p, name, version)
                        &&& forall|q: int|
                            p < q ==> !#[trigger] has_checksum(front, q, name, version)
                        &&& before.get((name, version)) == front[p].checksum
                    };
                assert(has_checksum(packages, p, name, version));
                assert(after.get((name, version)) == before.get((name, version)));
            } else {
                assert(after.get((name, version)) == before.get((name, version)));
            }
        }
    }
}

/// Whether a lock file can be read, if there is one, and the versions of its packages that have a
/// checksum can be.
pub open spec fn can_be_read(files: CargoWorkspaceFilesView) -> bool {
    files.lock_file_opt is Some ==> files.lock_file_opt->Some_0.packages is Ok && are_versioned(
        files.lock_file_opt->Some_0.packages->Ok_0,
    )
}

/// Lock files that can be read tell the checksums that they should.
pub proof fn lemma_files(files: Seq<CargoWorkspaceFilesView>, name: Text, version: Text)
    ensures
        checksums_of_files(files) is Ok <==> forall|f: int|
            0 <= f < files.len() ==> can_be_read(#[trigger] files[f]),
        checksums_of_files(files) matches Ok(table) ==> {
            ||| !is_locked(files, name, version) && table.get((name, version)) is None
            ||| exists|f: int, p: int|
                {
                    &&& #[trigger] is_last_locked(files, f, p, name, version)
                    &&& table.get((name, version)) == locked_packages(files[f])[p].checksum
                }
        },
    decreases files.len(),
{
    if files.len() > 0 {
        let front = files.drop_last();
        let last = files.last();
        let n = files.len() - 1;
        lemma_files(front, name, version);
        assert(files[n] == last);
        assert(forall|f: int| 0 <= f < n ==> #[trigger] files[f] == front[f]);
        if exists|f: int| 0 <= f < front.len() && !can_be_read(#[trigger] front[f]) {
            let f = choose|f: int| 0 <= f < front.len() && !can_be_read(#[trigger] front[f]);
            assert(files[f] == front[f]);
        } else {
            let before = checksums_of_files(front)->Ok_0;
            let packages = locked_packages(last);
            lemma_locked(before, packages, name, version);
            assert(checksums_of_files(files) is Ok <==> can_be_read(last));
            if checksums_of_files(files) is Ok {
                let table = checksums_of_files(files)->Ok_0;
                assert(Ok::<Checksums, RazeErrorView>(table) == with_locked(before, packages));
                if exists|p: int| #[trigger] has_checksum(packages, p, name, version) {
                    let p = choose|p: int|
                        {
                            &&& #[trigger] has_checksum(packages, p, name, version)
                            &&& forall|q: int|
                                p < q ==> !#[trigger] has_checksum(packages, q, name, version)
                            &&& table.get((name, version)) == packages[p].checksum
                        };
                    assert(is_last_locked(files, n, p, name, version));
                } else {
                    assert(table.get((name, version)) == before.get((name, version)));
                    if is_locked(front, name, version) {
                        let (f, p) = choose|f: int, p: int|
                            {
                                &&& #[trigger] is_last_locked(front, f, p, name, version)
                                &&& before.get((name, version)) == locked_packages(
                                    front[f],
                                )[p].checksum
                            };
                        assert forall|g: int, q: int|
                            f < g < files.len() implies !#[trigger] has_checksum(
                            locked_packages(files[g]),
                            q,
                            name,
                            version,
                        ) by {
                            if g < n {
                                assert(files[g] == front[g]);
                            }
                        }
                        assert(is_last_locked(files, f, p, name, version));
                    } else {
                        assert(!is_locked(files, name, version)) by {
                            if is_locked(files, name, version) {
                                let (f, p) = choose|f: int, p: int|
                                    0 <= f < files.len() && #[trigger] has_checksum(
                                        locked_packages(files[f]),
                                        p,
                                        name,
                                        version,
                                    );
                                assert(f < n);
                                assert(has_checksum(
                                    locked_packages(front[f]),
                                    p,
                                    name,
                                    version,
                                ));
                            }
                        }
                        if exists|f: int, p: int| #[trigger]
                            is_last_locked(front, f, p, name, version) {
                            let (f, p) = choose|f: int, p: int| #[trigger]
                                is_last_locked(front, f, p, name, version);
                            assert(has_checksum(locked_packages(front[f]), p, name, version));
                        }
                    }
                }
            }
        }
    }
}

/// Whether what the index says at `x` is the first that it says of this name and version.
pub open spec fn is_first_indexed(
    said: Seq<IndexChecksumView>,
    x: int,
    name: Text,
    version: Text,
) -> bool {
    &&& 0 <= x < said.len()
    &&& said[x].name == name && said[x].version == version
    &&& forall|h: int|
        0 <= h < x ==> (#[trigger] said[h]).name != name || said[h].version != version
}

/// What is found in the index is the first that it says.
pub proof fn lemma_first_indexed(said: Seq<IndexChecksumView>, name: Text, version: Text)
    ensures
        match find_index_checksum(said, name, version) {
            Some(answer) => exists|x: int|
                #[trigger] is_first_indexed(said, x, name, version) && said[x].checksum == answer,
            None => forall|x: int| !#[trigger] is_first_indexed(said, x, name, version),
        },
    decreases said.len(),
{
    if said.len() > 0 {
        if said[0].name == name && said[0].version == version {
            assert(is_first_indexed(said, 0, name, version));
        } else {
            let rest = said.drop_first();
            lemma_first_indexed(rest, name, version);
            assert forall|x: int| #[trigger] is_first_indexed(said, x, name, version)
                <==> is_first_indexed(rest, x - 1, name, version) by {
                if is_first_indexed(said, x, name, version) {
                    assert(x > 0);
                    assert(rest[x - 1] == said[x]);
                    assert forall|h: int| 0 <= h < x - 1 implies (#[trigger] rest[h]).name != name
                        || rest[h].version != version by {
                        assert(rest[h] == said[h + 1]);
                    }
                }
                if is_first_indexed(rest, x - 1, name, version) {
                    assert(rest[x - 1] == said[x]);
                    assert forall|h: int| 0 <= h < x implies (#[trigger] said[h]).name != name
                        || said[h].version != version by {
                        if h > 0 {
                            assert(rest[h - 1] == said[h]);
                        }
                    }
                }
            }
            if find_index_checksum(said, name, version) is Some {
                let answer = find_index_checksum(said, name, version)->Some_0;
                let y = choose|y: int|
                    #[trigger] is_first_indexed(rest, y, name, version) && rest[y].checksum == answer;
                assert(is_first_indexed(said, y + 1, name, version));
                assert(said[y + 1] == rest[y]);
            }
        }
    }
}

/// Whether the first that the index says of this name and version is this checksum.
pub open spec fn is_indexed_as(
    said: Seq<IndexChecksumView>,
    name: Text,
    version: Text,
    checksum: Text,
) -> bool {
    exists|x: int|
        #[trigger] is_first_indexed(said, x, name, version) && said[x].checksum == Ok::<Text, Text>(
            checksum,
        )
}

/// Whether one of the crates that are wanted for their binaries has this name and version.
pub open spec fn is_binary_version(
    deps: Seq<BinaryDependencyView>,
    name: Text,
    version: Text,
) -> bool {
    exists|i: int|
        0 <= i < deps.len() && (#[trigger] deps[i]).name == name && deps[i].req == version
}

/// Whether the index tells the checksum of a crate that is wanted for its binaries, and its version can
/// be read.
pub open spec fn is_indexed(dep: BinaryDependencyView, facts: WorkspaceFactsView) -> bool {
    &&& version_error(dep.req) is None
    &&& exists|checksum: Text| is_indexed_as(facts.index_checksums, dep.name, dep.req, checksum)
}

proof fn lemma_first_is_one(
    said: Seq<IndexChecksumView>,
    x: int,
    y: int,
    name: Text,
    version: Text,
)
    requires
        is_first_indexed(said, x, name, version),
        is_first_indexed(said, y, name, version),
    ensures
        x == y,
{
    if x < y {
        assert(said[x].name != name || said[x].version != version);
    }
    if y < x {
        assert(said[y].name != name || said[y].version != version);
    }
}

/// The index tells the checksums that it should.
pub proof fn lemma_indexed(
    table: Checksums,
    deps: Seq<BinaryDependencyView>,
    facts: WorkspaceFactsView,
    name: Text,
    version: Text,
)
    ensures
        with_indexed(table, deps, facts) is Ok <==> forall|i: int|
            0 <= i < deps.len() ==> is_indexed(#[trigger] deps[i], facts),
        with_indexed(table, deps, facts) matches Ok(after) ==> {
            &&& is_binary_version(deps, name, version) ==> after.get((name, version)) is Some
                && is_indexed_as(
                facts.index_checksums,
                name,
                version,
                after.get((name, version))->Some_0,
            )
            &&& !is_binary_version(deps, name, version) ==> after.get((name, version)) == table.get(
                (name, version),
            )
        },
    decreases deps.len(),
{
    if deps.len() > 0 {
        let front = deps.drop_last();
        let last = deps.last();
        let n = deps.len() - 1;
        lemma_indexed(table, front, facts, name, version);
        lemma_first_indexed(facts.index_checksums, last.name, last.req);
        assert(deps[n] == last);
        assert(forall|i: int| 0 <= i < n ==> #[trigger] deps[i] == front[i]);
        assert(is_binary_version(deps, name, version) <==> is_binary_version(front, name, version)
            || last.name == name && last.req == version) by {
            if is_binary_version(deps, name, version) {
                let i = choose|i: int|
                    0 <= i < deps.len() && (#[trigger] deps[i]).name == name && deps[i].req
                        == version;
                if i < n {
                    assert(front[i] == deps[i]);
                }
            }
            if is_binary_version(front, name, version) {
                let i = choose|i: int|
                    0 <= i < front.len() && (#[trigger] front[i]).name == name && front[i].req
                        == version;
                assert(deps[i] == front[i]);
            }
        }
        let answer = find_index_checksum(facts.index_checksums, last.name, last.req);
        assert(is_indexed(last, facts) <==> version_error(last.req) is None && answer is Some
            && answer->Some_0 is Ok) by {
            if answer is Some {
                let x = choose|x: int|
                    #[trigger] is_first_indexed(
                        facts.index_checksums,
                        x,
                        last.name,
                        last.req,
                    ) && facts.index_checksums[x].checksum == answer->Some_0;
                if answer->Some_0 is Ok {
                    assert(is_indexed_as(
                        facts.index_checksums,
                        last.name,
                        last.req,
                        answer->Some_0->Ok_0,
                    ));
                }
                if is_indexed(last, facts) {
                    let checksum = choose|checksum: Text|
                        is_indexed_as(facts.index_checksums, last.name, last.req, checksum);
                    let y = choose|y: int|
                        #[trigger] is_first_indexed(
                            facts.index_checksums,
                            y,
                            last.name,
                            last.req,
                        ) && facts.index_checksums[y].checksum == Ok::<Text, Text>(checksum);
                    lemma_first_is_one(facts.index_checksums, x, y, last.name, last.req);
                }
            } else if is_indexed(last, facts) {
                let checksum = choose|checksum: Text|
                    is_indexed_as(facts.index_checksums, last.name, last.req, checksum);
                let y = choose|y: int|
                    #[trigger] is_first_indexed(
                        facts.index_checksums,
                        y,
                        last.name,
                        last.req,
                    ) && facts.index_checksums[y].checksum == Ok::<Text, Text>(checksum);
                assert(false);
            }
        }
        if exists|i: int| 0 <= i < front.len() && !is_indexed(#[trigger] front[i], facts) {
            let i = choose|i: int| 0 <= i < front.len() && !is_indexed(#[trigger] front[i], facts);
            assert(deps[i] == front[i]);
        } else {
            assert((forall|i: int| 0 <= i < deps.len() ==> is_indexed(#[trigger] deps[i], facts))
                <==> is_indexed(last, facts)) by {
                if is_indexed(last, facts) {
                    assert forall|i: int| 0 <= i < deps.len() implies is_indexed(
                        #[trigger] deps[i],
                        facts,
                    ) by {
                        if i < n {
                            assert(front[i] == deps[i]);
                        }
                    }
                }
            }
        }
        if with_indexed(table, deps, facts) is Ok {
            let before = with_indexed(table, front, facts)->Ok_0;
            let after = with_indexed(table, deps, facts)->Ok_0;
            if last.name == name && last.req == version {
                let x = choose|x: int|
                    #[trigger] is_first_indexed(
                        facts.index_checksums,
                        x,
                        last.name,
                        last.req,
                    ) && facts.index_checksums[x].checksum == answer->Some_0;
                assert(is_indexed_as(
                    facts.index_checksums,
                    name,
                    version,
                    answer->Some_0->Ok_0,
                ));
                assert(after.get((name, version)) == Some(answer->Some_0->Ok_0));
            } else {
                assert((last.name, last.req) != (name, version));
                assert(after.get((name, version)) == before.get((name, version)));
            }
        }
    }
}

/// The files of the workspace behind those of the crates that are wanted for their binaries.
pub open spec fn files_of(view: WorkspaceSubplannerView) -> Seq<CargoWorkspaceFilesView> {
    Seq::new(
        view.binary_deps_files.len() + 1,
        |f: int|
            if f < view.binary_deps_files.len() {
                view.binary_deps_files[f].files
            } else {
                view.files
            },
    )
}

/// Whether this is the checksum of a package: where Bazel fetches the sources, that of a crate that is
/// wanted for its binaries is what the index says; else it is what the last lock file says that says
/// one, and none if no lock file does.
pub open spec fn is_checksum_of(
    view: WorkspaceSubplannerView,
    name: Text,
    version: Text,
    checksum: Option<Text>,
) -> bool {
    if view.settings.genmode == GenMode::Remote && is_binary_version(
        view.settings.binary_deps,
        name,
        version,
    ) {
        checksum is Some && is_indexed_as(
            view.facts.index_checksums,
            name,
            version,
            checksum->Some_0,
        )
    } else if is_locked(files_of(view), name, version) {
        exists|f: int, p: int|
            {
                &&& #[trigger] is_last_locked(files_of(view), f, p, name, version)
                &&& checksum == locked_packages(files_of(view)[f])[p].checksum
            }
    } else {
        checksum is None
    }
}

/// Whether the checksums can be gathered: every lock file can be read, and, where Bazel fetches the
/// sources, the index tells the checksum of every crate that is wanted for its binaries.
pub open spec fn has_checksums(view: WorkspaceSubplannerView) -> bool {
    &&& forall|f: int| 0 <= f < files_of(view).len() ==> can_be_read(#[trigger] files_of(view)[f])
    &&& view.settings.genmode == GenMode::Remote ==> forall|i: int|
        0 <= i < view.settings.binary_deps.len() ==> is_indexed(
            #[trigger] view.settings.binary_deps[i],
            view.facts,
        )
}

/// Every package gets its checksum, whatever its name and version are.
pub proof fn lemma_checksum_of_package(view: WorkspaceSubplannerView, name: Text, version: Text)
    ensures
        view.checksums() is Ok <==> has_checksums(view),
        view.checksums() matches Ok(table) ==> is_checksum_of(
            view,
            name,
            version,
            table.get((name, version)),
        ),
{
    let files = files_of(view);
    assert(view.all_files() =~= files);
    lemma_files(files, name, version);
    if checksums_of_files(files) is Ok {
        let table = checksums_of_files(files)->Ok_0;
        lemma_indexed(table, view.settings.binary_deps, view.facts, name, version);
        if exists|f: int, p: int| #[trigger] is_last_locked(files, f, p, name, version) {
            let (f, p) = choose|f: int, p: int| #[trigger]
                is_last_locked(files, f, p, name, version);
            assert(has_checksum(locked_packages(files[f]), p, name, version));
            assert(is_locked(files, name, version));
        }
    }
}

/// Only where Bazel fetches the sources, the index is asked of something: of each crate that is wanted
/// for its binaries, in order, up to the first whose version cannot be read.
pub proof fn lemma_index_is_asked(settings: RazeSettingsView)
    ensures
        settings.genmode != GenMode::Remote ==> wanted_checksums(settings).len() == 0,
        settings.genmode == GenMode::Remote ==> {
            let asked = wanted_checksums(settings);
            let deps = settings.binary_deps;
            &&& asked.len() <= deps.len()
            &&& asked.len() < deps.len() ==> version_error(deps[asked.len() as int].req) is Some
            &&& forall|i: int|
                0 <= i < asked.len() ==> (#[trigger] asked[i]).index_url == settings.index_url
                    && asked[i].name == deps[i].name && asked[i].version == deps[i].req
                    && version_error(asked[i].version) is None
        },
{
    lemma_requests(settings.index_url, settings.binary_deps);
}

proof fn lemma_requests(index_url: Text, deps: Seq<BinaryDependencyView>)
    ensures
        ({
            let asked = requests_for(index_url, deps);
            &&& asked.len() <= deps.len()
            &&& asked.len() < deps.len() ==> version_error(deps[asked.len() as int].req) is Some
            &&& forall|i: int|
                0 <= i < asked.len() ==> (#[trigger] asked[i]).index_url == index_url && asked[i].name
                    == deps[i].name && asked[i].version == deps[i].req && version_error(
                    asked[i].version,
                ) is None
        }),
    decreases deps.len(),
{
    if deps.len() > 0 && version_error(deps[0].req) is None {
        let rest = deps.drop_first();
        let asked = requests_for(index_url, deps);
        let later = requests_for(index_url, rest);
        lemma_requests(index_url, rest);
        assert(asked.len() == later.len() + 1);
        if later.len() < rest.len() {
            assert(rest[later.len() as int] == deps[asked.len() as int]);
        }
        assert forall|i: int| 0 <= i < asked.len() implies (#[trigger] asked[i]).index_url
            == index_url && asked[i].name == deps[i].name && asked[i].version == deps[i].req
            && version_error(asked[i].version) is None by {
            if i > 0 {
                assert(asked[i] == later[i - 1]);
                assert(rest[i - 1] == deps[i]);
            }
        }
    }
}

} // verus!
