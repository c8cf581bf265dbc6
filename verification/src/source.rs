//! Where the sources of a package come from.

use vstd::prelude::*;

use crate::text::{copy_optional_text, Text};

verus! {

/// The error of the `cargo-lock` crate.
#[verifier::external_type_specification]
#[verifier::external_body]
pub struct ExCargoLockError(cargo_lock::Error);

/// What a source URL says.
#[derive(Debug, PartialEq, Eq)]
pub struct SourceId {
    /// The source is a Git repository.
    pub git: bool,
    /// The URL of the repository or registry.
    pub url: String,
    /// The exact revision, where the source is locked to one.
    pub precise: Option<String>,
}

/// What a [`SourceId`] holds.
#[verifier::ext_equal]
pub struct SourceIdView {
    pub git: bool,
    pub url: Text,
    pub precise: Option<Text>,
}

impl DeepView for SourceId {
    type V = SourceIdView;

    open spec fn deep_view(&self) -> SourceIdView {
        SourceIdView { git: self.git, url: self.url@, precise: self.precise.deep_view() }
    }
}

impl Clone for SourceId {
    fn clone(&self) -> (r: Self)
        ensures
            r.deep_view() == self.deep_view(),
    {
        SourceId {
            git: self.git,
            url: self.url.clone(),
            precise: copy_optional_text(&self.precise),
        }
    }
}

impl SourceId {
    /// Whether the source is a Git repository.
    pub fn is_git(&self) -> (r: bool)
        ensures
            r == self.deep_view().git,
    {
        self.git
    }
}

/// What `cargo_lock::SourceId::from_url` reads from a URL; nothing where it fails.
pub uninterp spec fn source_id_of(url: Seq<char>) -> Option<SourceIdView>;

/// Calls `cargo_lock::SourceId::from_url`, and asks the result for `is_git`, `url` and `precise`.
/// Claimed: what they say depends on the URL alone.
#[verifier::external_body]
fn cargo_lock_source_id(url: &str) -> (r: Result<SourceId, cargo_lock::Error>)
    ensures
        r.ok().deep_view() == source_id_of(url@),
{
    cargo_lock::SourceId::from_url(url).map(|id| SourceId {
        git: id.is_git(),
        url: id.url().to_string(),
        precise: id.precise().map(|p| p.to_owned()),
    })
}

/// The source of a package: its URL, and what the URL says where it can be read.
#[derive(Debug, PartialEq, Eq)]
pub struct Source {
    repr: String,
    id: Option<SourceId>,
}

/// What a [`Source`] holds.
#[verifier::ext_equal]
pub struct SourceView {
    pub repr: Text,
    pub id: Option<SourceIdView>,
}

impl DeepView for Source {
    type V = SourceView;

    closed spec fn deep_view(&self) -> SourceView {
        SourceView { repr: self.repr@, id: self.id.deep_view() }
    }
}

impl Clone for Source {
    fn clone(&self) -> (r: Self)
        ensures
            r.deep_view() == self.deep_view(),
    {
        proof {
            use_type_invariant(self);
        }
        let id = match &self.id {
            Some(id) => Some(id.clone()),
            None => None,
        };
        Source { repr: self.repr.clone(), id }
    }
}

impl Source {
    #[verifier::type_invariant]
    closed spec fn says_what_its_url_says(&self) -> bool {
        self.id.deep_view() == source_id_of(self.repr@)
    }

    /// The source with this URL.
    pub fn new(repr: &str) -> (r: Source)
        ensures
            r.deep_view() == (SourceView { repr: repr@, id: source_id_of(repr@) }),
    {
        let id = cargo_lock_source_id(repr).ok();
        Source { repr: repr.to_owned(), id }
    }

    /// The URL.
    pub fn to_text(&self) -> (r: String)
        ensures
            r@ == self.deep_view().repr,
    {
        self.repr.clone()
    }

    /// What the URL says, where it can be read.
    pub fn id(&self) -> (r: &Option<SourceId>)
        ensures
            r.deep_view() == self.deep_view().id,
            self.deep_view().id == source_id_of(self.deep_view().repr),
    {
        proof {
            use_type_invariant(self);
        }
        &self.id
    }
}

} // verus!
