//! The checksums of packages.

use vstd::prelude::*;

use crate::error::{RazeError, RazeErrorView};
use crate::metadata::{CargoWorkspaceFiles, CargoWorkspaceFilesView, LockedPackage, LockedPackageView};
use crate::planning::facts::{find_index_checksum, WorkspaceFacts, WorkspaceFactsView};
use crate::settings::{
    BinaryDependency, BinaryDependencyView, GenMode, RazeSettings, RazeSettingsView,
};
use crate::text::{same_text, Text};
use crate::version::{version_error, version_reads, Version};

verus! {

/// The checksum of a package.
#[derive(Debug, PartialEq, Eq)]
struct PackageChecksum {
    name: String,
    version: Version,
    checksum: String,
}

/// Checksums, by the name and version of a package.
#[derive(Debug, PartialEq, Eq)]
pub struct ChecksumTable {
    entries: Vec<PackageChecksum>,
}

/// Checksums, by the name and version of a package.
pub type Checksums = Map<(Text, Text), Text>;

/// What a list of entries says. Of two entries for a package the later counts.
spec fn checksums_of(entries: Seq<PackageChecksum>) -> Checksums
    decreases entries.len(),
{
    if entries.len() == 0 {
        Map::empty()
    } else {
        checksums_of(entries.drop_last()).insert(
            (entries.last().name@, entries.last().version.deep_view()),
            entries.last().checksum@,
        )
    }
}

impl DeepView for ChecksumTable {
    type V = Checksums;

    closed spec fn deep_view(&self) -> Checksums {
        checksums_of(self.entries@)
    }
}

impl ChecksumTable {
    /// A table without checksums.
    pub fn new() -> (r: ChecksumTable)
        ensures
            r.deep_view() == Checksums::empty(),
    {
        ChecksumTable { entries: Vec::new() }
    }

    /// Sets the checksum of a package.
    pub fn insert(&mut self, name: &str, version: Version, checksum: &str)
        ensures
            final(self).deep_view() == old(self).deep_view().insert(
                (name@, version.deep_view()),
                checksum@,
            ),
    {
        let ghost before = self.entries@;
        self.entries.push(
            PackageChecksum { name: name.to_owned(), version, checksum: checksum.to_owned() },
        );
        assert(self.entries@.drop_last() =~= before);
    }

    /// The checksum of a package.
    pub fn get(&self, name: &str, version: &Version) -> (r: Option<String>)
        ensures
            r.deep_view() == self.deep_view().get((name@, version.deep_view())),
    {
        let ghost key = (name@, version.deep_view());
        let mut i: usize = self.entries.len();
        assert(self.entries@.take(i as int) =~= self.entries@);
        while i > 0
            invariant
                key == (name@, version.deep_view()),
                i <= self.entries.len(),
                self.deep_view().get(key) == checksums_of(self.entries@.take(i as int)).get(key),
            decreases i,
        {
            let ghost front = self.entries@.take(i as int);
            i = i - 1;
            let entry = &self.entries[i];
            assert(front.last() == entry);
            assert(front.drop_last() =~= self.entries@.take(i as int));
            if same_text(entry.name.as_str(), name) && entry.version.same(version) {
                return Some(entry.checksum.clone());
            }
        }
        None
    }
}

/// `table` with the checksums of the packages of a lock file.
pub open spec fn with_locked(table: Checksums, packages: Seq<LockedPackageView>) -> Result<
    Checksums,
    RazeErrorView,
>
    decreases packages.len(),
{
    if packages.len() == 0 {
        Ok(table)
    } else {
        match with_locked(table, packages.drop_last()) {
            Err(error) => Err(error),
            Ok(before) => {
                let package = packages.last();
                match package.checksum {
                    None => Ok(before),
                    Some(checksum) => match version_error(package.version) {
                        None => Ok(before.insert((package.name, package.version), checksum)),
                        Some(message) => Err(RazeErrorView::Version(message)),
                    },
                }
            },
        }
    }
}

/// The checksums of the packages of all lock files. Of two for a package that of the later file
/// counts.
pub open spec fn checksums_of_files(files: Seq<CargoWorkspaceFilesView>) -> Result<
    Checksums,
    RazeErrorView,
>
    decreases files.len(),
{
    if files.len() == 0 {
        Ok(Map::empty())
    } else {
        match checksums_of_files(files.drop_last()) {
            Err(error) => Err(error),
            Ok(before) => match files.last().lock_file_opt {
                None => Ok(before),
                Some(lock) => match lock.packages {
                    Err(message) => Err(RazeErrorView::Generic(message)),
                    Ok(packages) => with_locked(before, packages),
                },
            },
        }
    }
}

/// The error for a crate of which nobody asked the index.
pub open spec fn not_in_index(dep: BinaryDependencyView) -> RazeErrorView {
    RazeErrorView::Generic(
        "Failed to find a checksum for "@ + dep.name + " "@ + dep.req + " in the index"@,
    )
}

/// `table` with what the index says of the crates that are wanted for their binaries.
pub open spec fn with_indexed(
    table: Checksums,
    deps: Seq<BinaryDependencyView>,
    facts: WorkspaceFactsView,
) -> Result<Checksums, RazeErrorView>
    decreases deps.len(),
{
    if deps.len() == 0 {
        Ok(table)
    } else {
        match with_indexed(table, deps.drop_last(), facts) {
            Err(error) => Err(error),
            Ok(before) => {
                let dep = deps.last();
                match version_error(dep.req) {
                    Some(message) => Err(RazeErrorView::Version(message)),
                    None => match find_index_checksum(facts.index_checksums, dep.name, dep.req) {
                        None => Err(not_in_index(dep)),
                        Some(Err(message)) => Err(RazeErrorView::Generic(message)),
                        Some(Ok(checksum)) => Ok(before.insert((dep.name, dep.req), checksum)),
                    },
                }
            },
        }
    }
}

proof fn lemma_with_locked_stops(table: Checksums, packages: Seq<LockedPackageView>, n: int)
    requires
        0 <= n <= packages.len(),
    ensures
        with_locked(table, packages.take(n)) matches Err(error) ==> with_locked(table, packages)
            == Err::<Checksums, RazeErrorView>(error),
    decreases packages.len() - n,
{
    if n < packages.len() {
        assert(packages.take(n + 1).drop_last() =~= packages.take(n));
        lemma_with_locked_stops(table, packages, n + 1);
    } else {
        assert(packages.take(n) =~= packages);
    }
}

proof fn lemma_files_stop(files: Seq<CargoWorkspaceFilesView>, n: int)
    requires
        0 <= n <= files.len(),
    ensures
        checksums_of_files(files.take(n)) matches Err(error) ==> checksums_of_files(files) == Err::<
            Checksums,
            RazeErrorView,
        >(error),
    decreases files.len() - n,
{
    if n < files.len() {
        assert(files.take(n + 1).drop_last() =~= files.take(n));
        lemma_files_stop(files, n + 1);
    } else {
        assert(files.take(n) =~= files);
    }
}

proof fn lemma_with_indexed_stops(
    table: Checksums,
    deps: Seq<BinaryDependencyView>,
    facts: WorkspaceFactsView,
    n: int,
)
    requires
        0 <= n <= deps.len(),
    ensures
        with_indexed(table, deps.take(n), facts) matches Err(error) ==> with_indexed(
            table,
            deps,
            facts,
        ) == Err::<Checksums, RazeErrorView>(error),
    decreases deps.len() - n,
{
    if n < deps.len() {
        assert(deps.take(n + 1).drop_last() =~= deps.take(n));
        lemma_with_indexed_stops(table, deps, facts, n + 1);
    } else {
        assert(deps.take(n) =~= deps);
    }
}

impl ChecksumTable {
    /// Adds the checksums of the packages of a lock file.
    pub fn add_locked(&mut self, packages: &Vec<LockedPackage>) -> (r: Result<(), RazeError>)
        ensures
            match r {
                Ok(()) => Ok(final(self).deep_view()),
                Err(error) => Err(error.deep_view()),
            } == with_locked(old(self).deep_view(), packages.deep_view()),
    {
        let ghost table = self.deep_view();
        let ghost all = packages.deep_view();
        let mut i: usize = 0;
        assert(all.take(0) =~= Seq::empty());
        while i < packages.len()
            invariant
                table == old(self).deep_view(),
                all == packages.deep_view(),
                i <= packages.len(),
                with_locked(table, all.take(i as int)) == Ok::<Checksums, RazeErrorView>(
                    self.deep_view(),
                ),
            decreases packages.len() - i,
        {
            let package = &packages[i];
            proof {
                assert(all.take(i + 1).drop_last() =~= all.take(i as int));
                assert(all.take(i + 1).last() == package.deep_view());
                lemma_with_locked_stops(table, all, i + 1);
            }
            if let Some(checksum) = &package.checksum {
                match Version::parse(package.version.as_str()) {
                    Ok(version) => {
                        self.insert(package.name.as_str(), version, checksum.as_str());
                    },
                    Err(error) => {
                        return Err(error);
                    },
                }
            }
            i = i + 1;
        }
        assert(all.take(i as int) =~= all);
        Ok(())
    }

    /// The checksums of the packages of all lock files.
    pub fn from_files(files: &Vec<&CargoWorkspaceFiles>) -> (r: Result<ChecksumTable, RazeError>)
        ensures
            match r {
                Ok(table) => Ok(table.deep_view()),
                Err(error) => Err(error.deep_view()),
            } == checksums_of_files(files.deep_view()),
    {
        let ghost all = files.deep_view();
        let mut table = ChecksumTable::new();
        let mut i: usize = 0;
        assert(all.take(0) =~= Seq::empty());
        while i < files.len()
            invariant
                all == files.deep_view(),
                i <= files.len(),
                checksums_of_files(all.take(i as int)) == Ok::<Checksums, RazeErrorView>(
                    table.deep_view(),
                ),
            decreases files.len() - i,
        {
            let workspace_files = files[i];
            proof {
                assert(all.take(i + 1).drop_last() =~= all.take(i as int));
                assert(all.take(i + 1).last() == workspace_files.deep_view());
                lemma_files_stop(all, i + 1);
            }
            if let Some(lock) = &workspace_files.lock_file_opt {
                match &lock.packages {
                    Ok(packages) => match table.add_locked(packages) {
                        Ok(()) => {},
                        Err(error) => {
                            return Err(error);
                        },
                    },
                    Err(message) => {
                        return Err(RazeError::Generic(message.clone()));
                    },
                }
            }
            i = i + 1;
        }
        assert(all.take(i as int) =~= all);
        Ok(table)
    }

    /// Adds what the index says of the crates that are wanted for their binaries.
    pub fn add_indexed(
        &mut self,
        deps: &Vec<BinaryDependency>,
        facts: &WorkspaceFacts,
    ) -> (r: Result<(), RazeError>)
        ensures
            match r {
                Ok(()) => Ok(final(self).deep_view()),
                Err(error) => Err(error.deep_view()),
            } == with_indexed(old(self).deep_view(), deps.deep_view(), facts.deep_view()),
    {
        let ghost table = self.deep_view();
        let ghost all = deps.deep_view();
        let ghost f = facts.deep_view();
        let mut i: usize = 0;
        assert(all.take(0) =~= Seq::empty());
        while i < deps.len()
            invariant
                table == old(self).deep_view(),
                all == deps.deep_view(),
                f == facts.deep_view(),
                i <= deps.len(),
                with_indexed(table, all.take(i as int), f) == Ok::<Checksums, RazeErrorView>(
                    self.deep_view(),
                ),
            decreases deps.len() - i,
        {
            let dep = &deps[i];
            proof {
                assert(all.take(i + 1).drop_last() =~= all.take(i as int));
                assert(all.take(i + 1).last() == dep.deep_view());
                lemma_with_indexed_stops(table, all, f, i + 1);
            }
            let version = match Version::parse(dep.req.as_str()) {
                Ok(version) => version,
                Err(error) => {
                    return Err(error);
                },
            };
            match facts.index_checksum(dep.name.as_str(), &version) {
                Some(Ok(checksum)) => {
                    self.insert(dep.name.as_str(), version, checksum.as_str());
                },
                Some(Err(message)) => {
                    return Err(RazeError::Generic(message.clone()));
                },
                None => {
                    return Err(
                        RazeError::Generic(
                            "Failed to find a checksum for ".to_owned().concat(
                                dep.name.as_str(),
                            ).concat(" ").concat(dep.req.as_str()).concat(" in the index"),
                        ),
                    );
                },
            }
            i = i + 1;
        }
        assert(all.take(i as int) =~= all);
        Ok(())
    }
}

/// A question to the index of a registry.
#[derive(Debug, PartialEq, Eq)]
pub struct IndexRequest {
    pub index_url: String,
    pub name: String,
    pub version: Version,
}

/// What an [`IndexRequest`] holds.
#[verifier::ext_equal]
pub struct IndexRequestView {
    pub index_url: Text,
    pub name: Text,
    pub version: Text,
}

impl DeepView for IndexRequest {
    type V = IndexRequestView;

    open spec fn deep_view(&self) -> IndexRequestView {
        IndexRequestView {
            index_url: self.index_url@,
            name: self.name@,
            version: self.version.deep_view(),
        }
    }
}

/// The questions for some crates: one for each, up to the first whose version cannot be read.
pub open spec fn requests_for(index_url: Text, deps: Seq<BinaryDependencyView>) -> Seq<
    IndexRequestView,
>
    decreases deps.len(),
{
    if deps.len() == 0 || !version_reads(deps[0].req) {
        Seq::empty()
    } else {
        seq![IndexRequestView { index_url, name: deps[0].name, version: deps[0].req }]
            + requests_for(index_url, deps.drop_first())
    }
}

/// What has to be asked of the index. Where Bazel does not fetch the sources, that is nothing.
pub open spec fn wanted_checksums(settings: RazeSettingsView) -> Seq<IndexRequestView> {
    if settings.genmode == GenMode::Remote {
        requests_for(settings.index_url, settings.binary_deps)
    } else {
        Seq::empty()
    }
}

/// Tells what has to be asked of the index.
pub fn checksum_requests(settings: &RazeSettings) -> (r: Vec<IndexRequest>)
    ensures
        r.deep_view() == wanted_checksums(settings.deep_view()),
{
    let deps = settings.binary_deps.items();
    let ghost all = deps.deep_view();
    let ghost url = settings.index_url@;
    let mut r: Vec<IndexRequest> = Vec::new();
    assert(r.deep_view() =~= Seq::empty());
    if settings.genmode != GenMode::Remote {
        return r;
    }
    let mut i: usize = 0;
    assert(all.skip(0) =~= all);
    assert(r.deep_view() + requests_for(url, all) =~= requests_for(url, all));
    while i < deps.len()
        invariant
            settings.genmode == GenMode::Remote,
            all == deps.deep_view(),
            all == settings.deep_view().binary_deps,
            url == settings.index_url@,
            i <= deps.len(),
            requests_for(url, all) == r.deep_view() + requests_for(url, all.skip(i as int)),
        decreases deps.len() - i,
    {
        let dep = &deps[i];
        let ghost before = r.deep_view();
        let ghost rest = all.skip(i as int);
        assert(rest[0] == dep.deep_view());
        match Version::parse(dep.req.as_str()) {
            Ok(version) => {
                r.push(
                    IndexRequest {
                        index_url: settings.index_url.clone(),
                        name: dep.name.clone(),
                        version,
                    },
                );
            },
            Err(_) => {
                assert(r.deep_view() =~= r.deep_view() + requests_for(url, rest));
                return r;
            },
        }
        proof {
            let asked = IndexRequestView { index_url: url, name: dep.name@, version: dep.req@ };
            assert(r.deep_view() =~= before.push(asked));
            assert(rest.drop_first() =~= all.skip(i + 1));
            assert(before + requests_for(url, rest) =~= r.deep_view() + requests_for(
                url,
                all.skip(i + 1),
            ));
        }
        i = i + 1;
    }
    assert(r.deep_view() =~= r.deep_view() + requests_for(url, all.skip(i as int)));
    r
}

/// The index is asked of every crate that is wanted for its binaries, as long as the versions can be
/// read.
pub proof fn lemma_requests_cover_deps(index_url: Text, deps: Seq<BinaryDependencyView>, i: int)
    requires
        0 <= i < deps.len(),
        forall|j: int| 0 <= j <= i ==> version_reads((#[trigger] deps[j]).req),
    ensures
        requests_for(index_url, deps).contains(
            IndexRequestView { index_url, name: deps[i].name, version: deps[i].req },
        ),
    decreases deps.len(),
{
    let asked = IndexRequestView { index_url, name: deps[i].name, version: deps[i].req };
    let all = requests_for(index_url, deps);
    assert(version_reads(deps[0].req));
    if i == 0 {
        assert(all[0] == asked);
    } else {
        let rest = deps.drop_first();
        assert forall|j: int| 0 <= j <= i - 1 implies version_reads((#[trigger] rest[j]).req) by {
            assert(rest[j] == deps[j + 1]);
        }
        lemma_requests_cover_deps(index_url, rest, i - 1);
        let later = requests_for(index_url, rest);
        let k = choose|k: int| 0 <= k < later.len() && later[k] == asked;
        assert(all[k + 1] == asked);
    }
}

} // verus!
