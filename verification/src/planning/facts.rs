//! What the planner has to know of the machine that it runs on.

use vstd::prelude::*;

use crate::paths::{FilePath, PathPartView};
use crate::platform::{BazelTriple, BazelTripleView};
use crate::text::{same_text, Text};
use crate::version::Version;

verus! {

/// What the index of a registry says of a version of a crate.
#[derive(Debug, PartialEq, Eq)]
pub struct IndexChecksum {
    pub name: String,
    pub version: Version,
    /// The checksum, or why there is none.
    pub checksum: Result<String, String>,
}

/// What an [`IndexChecksum`] holds.
pub struct IndexChecksumView {
    pub name: Text,
    pub version: Text,
    pub checksum: Result<Text, Text>,
}

impl DeepView for IndexChecksum {
    type V = IndexChecksumView;

    open spec fn deep_view(&self) -> IndexChecksumView {
        IndexChecksumView {
            name: self.name@,
            version: self.version.deep_view(),
            checksum: match self.checksum {
                Ok(checksum) => Ok(checksum@),
                Err(message) => Err(message@),
            },
        }
    }
}

/// What was found out about the files of a workspace and the index of its registry.
#[derive(Debug, PartialEq, Eq)]
pub struct WorkspaceFacts {
    /// The directories that are Git repositories.
    pub git_roots: Vec<FilePath>,
    /// The packages whose sources are checked in, as `name-version`.
    pub vendored_crates: Vec<String>,
    /// What the index says of the crates that are wanted for their binaries.
    pub index_checksums: Vec<IndexChecksum>,
    /// The targets that the Bazel rules support.
    pub bazel_triples: Vec<BazelTriple>,
}

/// What a [`WorkspaceFacts`] holds.
#[verifier::ext_equal]
pub struct WorkspaceFactsView {
    pub git_roots: Seq<Seq<PathPartView>>,
    pub vendored_crates: Seq<Text>,
    pub index_checksums: Seq<IndexChecksumView>,
    pub bazel_triples: Seq<BazelTripleView>,
}

impl DeepView for WorkspaceFacts {
    type V = WorkspaceFactsView;

    open spec fn deep_view(&self) -> WorkspaceFactsView {
        WorkspaceFactsView {
            git_roots: self.git_roots.deep_view(),
            vendored_crates: self.vendored_crates.deep_view(),
            index_checksums: self.index_checksums.deep_view(),
            bazel_triples: self.bazel_triples.deep_view(),
        }
    }
}

/// What the index says of a version of a crate: the first of `checksums` that is about it.
pub open spec fn find_index_checksum(
    checksums: Seq<IndexChecksumView>,
    name: Text,
    version: Text,
) -> Option<Result<Text, Text>>
    decreases checksums.len(),
{
    if checksums.len() == 0 {
        None
    } else if checksums[0].name == name && checksums[0].version == version {
        Some(checksums[0].checksum)
    } else {
        find_index_checksum(checksums.drop_first(), name, version)
    }
}

impl WorkspaceFacts {
    /// Whether a directory is a Git repository.
    pub fn is_git_root(&self, path: &FilePath) -> (r: bool)
        ensures
            r == self.deep_view().git_roots.contains(path.deep_view()),
    {
        let mut i: usize = 0;
        while i < self.git_roots.len()
            invariant
                i <= self.git_roots.len(),
                forall|j: int| 0 <= j < i ==> self.git_roots.deep_view()[j] != path.deep_view(),
            decreases self.git_roots.len() - i,
        {
            assert(self.git_roots.deep_view()[i as int] == self.git_roots@[i as int].deep_view());
            if self.git_roots[i].same(path) {
                return true;
            }
            i = i + 1;
        }
        false
    }

    /// What the index says of a version of a crate.
    pub fn index_checksum(&self, name: &str, version: &Version) -> (r: Option<
        &Result<String, String>,
    >)
        ensures
            match r {
                Some(Ok(checksum)) => find_index_checksum(
                    self.deep_view().index_checksums,
                    name@,
                    version.deep_view(),
                ) == Some(Ok::<Text, Text>(checksum@)),
                Some(Err(message)) => find_index_checksum(
                    self.deep_view().index_checksums,
                    name@,
                    version.deep_view(),
                ) == Some(Err::<Text, Text>(message@)),
                None => find_index_checksum(
                    self.deep_view().index_checksums,
                    name@,
                    version.deep_view(),
                ) is None,
            },
    {
        let ghost all = self.index_checksums.deep_view();
        let ghost v = version.deep_view();
        let mut i: usize = 0;
        assert(all.skip(0) =~= all);
        while i < self.index_checksums.len()
            invariant
                all == self.index_checksums.deep_view(),
                v == version.deep_view(),
                i <= self.index_checksums.len(),
                find_index_checksum(all, name@, v) == find_index_checksum(
                    all.skip(i as int),
                    name@,
                    v,
                ),
            decreases self.index_checksums.len() - i,
        {
            let c = &self.index_checksums[i];
            assert(all.skip(i as int)[0] == c.deep_view());
            if same_text(c.name.as_str(), name) && c.version.same(version) {
                assert(find_index_checksum(all.skip(i as int), name@, v) == Some(
                    c.deep_view().checksum,
                ));
                return Some(&c.checksum);
            }
            assert(all.skip(i as int).drop_first() =~= all.skip(i + 1));
            i = i + 1;
        }
        None
    }
}

} // verus!
