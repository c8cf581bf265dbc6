//! Versions and version requirements.

use vstd::prelude::*;

use crate::error::{RazeError, RazeErrorView};
use crate::text::Text;

verus! {

/// Why `semver::Version::parse` refuses a text, as its error prints it; nothing where it accepts it.
pub uninterp spec fn version_error(text: Seq<char>) -> Option<Seq<char>>;

/// Whether a text is a version.
pub open spec fn version_reads(text: Text) -> bool {
    version_error(text) is None
}

/// Whether, in the order of `semver::Version`, the first of two versions is not above the second.
pub uninterp spec fn version_le(a: Seq<char>, b: Seq<char>) -> bool;

/// Why `semver::VersionReq::parse` refuses a text, as its error prints it; nothing where it accepts it.
pub uninterp spec fn version_req_error(text: Seq<char>) -> Option<Seq<char>>;

/// Whether a text is a requirement on versions.
pub open spec fn version_req_reads(text: Text) -> bool {
    version_req_error(text) is None
}

/// Whether a version satisfies a requirement, as `semver::VersionReq::matches` decides it.
pub uninterp spec fn version_req_matches(req: Seq<char>, version: Seq<char>) -> bool;

/// How `semver::VersionReq` prints a requirement.
pub uninterp spec fn version_req_display(req: Seq<char>) -> Seq<char>;

/// Calls `semver::Version::parse`, and prints what it read, or its error. Claimed: whether it succeeds
/// and what the error prints depend on the text alone, and what it read prints as the text that it was
/// read from.
#[verifier::external_body]
fn semver_read_version(text: &str) -> (r: Result<String, String>)
    ensures
        match r {
            Ok(printed) => version_error(text@) is None && printed@ == text@,
            Err(message) => version_error(text@) == Some(message@),
        },
{
    semver::Version::parse(text).map(|v| v.to_string()).map_err(|e| e.to_string())
}

/// Calls `<=` of `semver::Version`. Claimed: the answer depends on the two texts alone, of two
/// versions one is not above the other, two versions of which neither is above the other have the
/// same text, and what is not above the first of two versions in order is not above the second.
#[verifier::external_body]
fn semver_version_le(a: &str, b: &str) -> (r: bool)
    requires
        version_reads(a@),
        version_reads(b@),
    ensures
        r == version_le(a@, b@),
        r || version_le(b@, a@),
        r && version_le(b@, a@) ==> a@ == b@,
        r ==> forall|c: Seq<char>|
            version_reads(c) && #[trigger] version_le(c, a@) ==> version_le(c, b@),
{
    semver::Version::parse(a).unwrap() <= semver::Version::parse(b).unwrap()
}

/// How `semver::Version` prints a version for debugging, over several lines.
pub uninterp spec fn version_debug(text: Seq<char>) -> Seq<char>;

/// Calls `fmt` of `Debug` for `semver::Version`, over several lines. Claimed: what is printed depends on
/// the text alone.
#[verifier::external_body]
fn semver_version_debug(text: &str) -> (r: String)
    requires
        version_reads(text@),
    ensures
        r@ == version_debug(text@),
{
    format!("{:#?}", semver::Version::parse(text).unwrap())
}

/// Calls `semver::VersionReq::parse`, and prints its error. Claimed: whether it succeeds and what the
/// error prints depend on the text alone.
#[verifier::external_body]
fn semver_read_req(text: &str) -> (r: Result<(), String>)
    ensures
        match r {
            Ok(()) => version_req_error(text@) is None,
            Err(message) => version_req_error(text@) == Some(message@),
        },
{
    semver::VersionReq::parse(text).map(|_| ()).map_err(|e| e.to_string())
}

/// Calls `semver::VersionReq::matches`. Claimed: the answer depends on the two texts alone.
#[verifier::external_body]
fn semver_req_matches(req: &str, version: &str) -> (r: bool)
    requires
        version_req_reads(req@),
        version_reads(version@),
    ensures
        r == version_req_matches(req@, version@),
{
    semver::VersionReq::parse(req).unwrap().matches(&semver::Version::parse(version).unwrap())
}

/// Calls `to_string` of `semver::VersionReq`. Claimed: the answer depends on the text alone.
#[verifier::external_body]
fn semver_req_to_string(req: &str) -> (r: String)
    requires
        version_req_reads(req@),
    ensures
        r@ == version_req_display(req@),
{
    semver::VersionReq::parse(req).unwrap().to_string()
}

/// A version.
#[derive(Debug, PartialEq, Eq)]
pub struct Version {
    text: String,
}

impl DeepView for Version {
    type V = Text;

    closed spec fn deep_view(&self) -> Text {
        self.text@
    }
}

impl Clone for Version {
    fn clone(&self) -> (r: Self)
        ensures
            r.deep_view() == self.deep_view(),
    {
        proof {
            use_type_invariant(self);
        }
        Version { text: self.text.clone() }
    }
}

impl Version {
    #[verifier::type_invariant]
    closed spec fn reads(&self) -> bool {
        version_reads(self.text@)
    }

    /// Reads a version.
    pub fn parse(text: &str) -> (r: Result<Version, RazeError>)
        ensures
            match r {
                Ok(version) => version_reads(text@) && version.deep_view() == text@,
                Err(error) => version_error(text@) matches Some(message) && error.deep_view()
                    == RazeErrorView::Version(message),
            },
    {
        match semver_read_version(text) {
            Ok(printed) => Ok(Version { text: printed }),
            Err(message) => Err(RazeError::Version(message)),
        }
    }

    /// The version as text.
    pub fn to_text(&self) -> (r: String)
        ensures
            r@ == self.deep_view(),
            version_reads(self.deep_view()),
    {
        proof {
            use_type_invariant(self);
        }
        self.text.clone()
    }

    /// The version as it is printed for debugging, over several lines.
    pub fn to_debug_text(&self) -> (r: String)
        ensures
            r@ == version_debug(self.deep_view()),
    {
        proof {
            use_type_invariant(self);
        }
        semver_version_debug(self.text.as_str())
    }

    /// Tells that the text of the version is one.
    pub fn is_readable(&self) -> (r: bool)
        ensures
            r,
            version_reads(self.deep_view()),
    {
        proof {
            use_type_invariant(self);
        }
        true
    }

    /// Whether two versions are the same.
    pub fn same(&self, other: &Version) -> (r: bool)
        ensures
            r == (self.deep_view() == other.deep_view()),
    {
        self.text == other.text
    }

    /// Whether this version is not above `other`.
    pub fn at_most(&self, other: &Version) -> (r: bool)
        ensures
            r == version_le(self.deep_view(), other.deep_view()),
            r || version_le(other.deep_view(), self.deep_view()),
            r && version_le(other.deep_view(), self.deep_view()) ==> self.deep_view()
                == other.deep_view(),
            r ==> forall|c: Text|
                version_reads(c) && #[trigger] version_le(c, self.deep_view()) ==> version_le(
                    c,
                    other.deep_view(),
                ),
    {
        proof {
            use_type_invariant(self);
            use_type_invariant(other);
        }
        semver_version_le(self.text.as_str(), other.text.as_str())
    }
}

/// A requirement on versions.
#[derive(Debug, PartialEq, Eq)]
pub struct VersionReq {
    text: String,
}

impl DeepView for VersionReq {
    type V = Text;

    closed spec fn deep_view(&self) -> Text {
        self.text@
    }
}

impl Clone for VersionReq {
    fn clone(&self) -> (r: Self)
        ensures
            r.deep_view() == self.deep_view(),
    {
        proof {
            use_type_invariant(self);
        }
        VersionReq { text: self.text.clone() }
    }
}

impl VersionReq {
    #[verifier::type_invariant]
    closed spec fn reads(&self) -> bool {
        version_req_reads(self.text@)
    }

    /// Reads a requirement.
    pub fn parse(text: &str) -> (r: Result<VersionReq, RazeError>)
        ensures
            match r {
                Ok(req) => version_req_reads(text@) && req.deep_view() == text@,
                Err(error) => version_req_error(text@) matches Some(message) && error.deep_view()
                    == RazeErrorView::Version(message),
            },
    {
        match semver_read_req(text) {
            Ok(()) => Ok(VersionReq { text: text.to_owned() }),
            Err(message) => Err(RazeError::Version(message)),
        }
    }

    /// Whether `version` satisfies the requirement.
    pub fn matches(&self, version: &Version) -> (r: bool)
        ensures
            r == version_req_matches(self.deep_view(), version.deep_view()),
    {
        proof {
            use_type_invariant(self);
            use_type_invariant(version);
        }
        semver_req_matches(self.text.as_str(), version.text.as_str())
    }

    /// The requirement as it is printed.
    pub fn to_text(&self) -> (r: String)
        ensures
            r@ == version_req_display(self.deep_view()),
    {
        proof {
            use_type_invariant(self);
        }
        semver_req_to_string(self.text.as_str())
    }
}

} // verus!
