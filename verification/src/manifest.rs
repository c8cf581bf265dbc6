//! Manifests of workspaces.

use vstd::prelude::*;

use crate::text::{copy_texts, Text};

verus! {

/// The members in the `workspace` section of a manifest, as `cargo_toml::Manifest::from_str` reads
/// it, and none where there is no such section; where it fails, what its error prints.
pub uninterp spec fn manifest_members(content: Seq<char>) -> Result<
    Option<Seq<Seq<char>>>,
    Seq<char>,
>;

/// A manifest that has a `workspace` section, written with other members in it; where writing fails,
/// what the error prints.
pub uninterp spec fn manifest_with_members(
    content: Seq<char>,
    members: Seq<Seq<char>>,
) -> Result<Seq<char>, Seq<char>>;

/// A manifest, written with a `workspace` section that holds members and nothing else; where writing
/// fails, what the error prints.
pub uninterp spec fn manifest_with_workspace(
    content: Seq<char>,
    members: Seq<Seq<char>>,
) -> Result<Seq<char>, Seq<char>>;

/// Calls `cargo_toml::Manifest::from_str`, and takes the members of the workspace from the result, or
/// prints the error. Claimed: they depend on the text alone.
#[verifier::external_body]
fn cargo_toml_members(content: &str) -> (r: Result<Option<Vec<String>>, String>)
    ensures
        match r {
            Ok(members) => manifest_members(content@) == Ok::<Option<Seq<Text>>, Text>(
                members.deep_view(),
            ),
            Err(message) => manifest_members(content@) == Err::<Option<Seq<Text>>, Text>(message@),
        },
{
    cargo_toml::Manifest::from_str(content)
        .map(|m| m.workspace.map(|w| w.members))
        .map_err(|e| e.to_string())
}

/// Calls `cargo_toml::Manifest::from_str`, puts `members` in the place of those of the workspace, and
/// calls `toml::Value::try_from` and `toml::to_string` on the result. Claimed: what is written, or what
/// the error prints, depends on the arguments alone, and where what is written can be read, its members
/// are those that were put there.
#[verifier::external_body]
fn toml_with_members(content: &str, members: &Vec<String>) -> (r: Result<String, String>)
    requires
        manifest_members(content@) matches Ok(Some(_)),
    ensures
        match r {
            Ok(text) => {
                &&& manifest_with_members(content@, members.deep_view()) == Ok::<Text, Text>(text@)
                &&& manifest_members(text@) matches Ok(read) ==> read == Some(members.deep_view())
            },
            Err(message) => manifest_with_members(content@, members.deep_view()) == Err::<
                Text,
                Text,
            >(message@),
        },
{
    let mut manifest = cargo_toml::Manifest::from_str(content).unwrap();
    manifest.workspace.as_mut().unwrap().members = members.clone();
    toml::Value::try_from(&manifest).and_then(|v| toml::to_string(&v)).map_err(|e| e.to_string())
}

/// Calls `cargo_toml::Manifest::from_str`, gives the result a workspace of `members`, and calls
/// `toml::Value::try_from` and `toml::to_string` on it. Claimed: what is written, or what the error
/// prints, depends on the arguments alone, and where what is written can be read, its members are those
/// that were given.
#[verifier::external_body]
fn toml_with_workspace(content: &str, members: &Vec<String>) -> (r: Result<String, String>)
    requires
        manifest_members(content@) is Ok,
    ensures
        match r {
            Ok(text) => {
                &&& manifest_with_workspace(content@, members.deep_view()) == Ok::<Text, Text>(
                    text@,
                )
                &&& manifest_members(text@) matches Ok(read) ==> read == Some(members.deep_view())
            },
            Err(message) => manifest_with_workspace(content@, members.deep_view()) == Err::<
                Text,
                Text,
            >(message@),
        },
{
    let mut manifest = cargo_toml::Manifest::from_str(content).unwrap();
    manifest.workspace = Some(cargo_toml::Workspace {
        members: members.clone(),
        package: None,
        default_members: Vec::new(),
        exclude: Vec::new(),
        metadata: None,
        resolver: None,
        dependencies: Default::default(),
    });
    toml::Value::try_from(&manifest).and_then(|v| toml::to_string(&v)).map_err(|e| e.to_string())
}

/// Why members could not be added to a workspace.
#[derive(Debug, PartialEq, Eq)]
pub enum ManifestError {
    /// The manifest cannot be read.
    Unreadable(String),
    /// The manifest cannot be written with the members.
    Unwritable(String),
}

/// What a [`ManifestError`] holds.
pub enum ManifestErrorView {
    Unreadable(Text),
    Unwritable(Text),
}

impl DeepView for ManifestError {
    type V = ManifestErrorView;

    open spec fn deep_view(&self) -> ManifestErrorView {
        match self {
            ManifestError::Unreadable(message) => ManifestErrorView::Unreadable(message@),
            ManifestError::Unwritable(message) => ManifestErrorView::Unwritable(message@),
        }
    }
}

/// The members of a workspace with more of them behind.
pub open spec fn with_members(members: Option<Seq<Text>>, added: Seq<Text>) -> Seq<Text> {
    match members {
        Some(members) => members + added,
        None => added,
    }
}

/// What was written, or why it could not be.
pub open spec fn written(text: Result<Text, Text>) -> Result<Text, ManifestErrorView> {
    match text {
        Ok(text) => Ok(text),
        Err(message) => Err(ManifestErrorView::Unwritable(message)),
    }
}

/// A manifest with crates added to the members of its workspace. A manifest without a workspace gets
/// one.
pub open spec fn injected(content: Text, added: Seq<Text>) -> Result<Text, ManifestErrorView> {
    match manifest_members(content) {
        Err(message) => Err(ManifestErrorView::Unreadable(message)),
        Ok(Some(members)) => written(manifest_with_members(content, members + added)),
        Ok(None) => written(manifest_with_workspace(content, added)),
    }
}

/// The members that a manifest has once crates were added to `members`.
pub fn members_with(members: &Option<Vec<String>>, binary_deps: &Vec<String>) -> (r: Vec<String>)
    ensures
        r.deep_view() == with_members(members.deep_view(), binary_deps.deep_view()),
{
    let mut all = match members {
        Some(members) => copy_texts(members),
        None => Vec::new(),
    };
    let ghost before = all.deep_view();
    let ghost added = binary_deps.deep_view();
    let mut i: usize = 0;
    assert(before + added.take(0) =~= before);
    while i < binary_deps.len()
        invariant
            added == binary_deps.deep_view(),
            i <= binary_deps.len(),
            all.deep_view() == before + added.take(i as int),
        decreases binary_deps.len() - i,
    {
        let ghost now = all.deep_view();
        all.push(binary_deps[i].clone());
        assert(all.deep_view() =~= now.push(added[i as int]));
        assert(now.push(added[i as int]) =~= before + added.take(i + 1));
        i = i + 1;
    }
    assert(added.take(i as int) =~= added);
    assert(all.deep_view() =~= with_members(members.deep_view(), added));
    all
}

/// Adds crates to the members of the workspace of a manifest, given as text, and writes it again. The
/// members of what is written, where it can be read, are those there were and the added ones behind
/// them.
pub fn inject_binaries_into_workspace(root_toml: &str, binary_deps: &Vec<String>) -> (r: Result<
    String,
    ManifestError,
>)
    ensures
        match r {
            Ok(text) => Ok(text@),
            Err(error) => Err(error.deep_view()),
        } == injected(root_toml@, binary_deps.deep_view()),
        r matches Ok(text) ==> (manifest_members(text@) matches Ok(read) ==> read == Some(
            with_members(manifest_members(root_toml@)->Ok_0, binary_deps.deep_view()),
        )),
{
    let members = match cargo_toml_members(root_toml) {
        Ok(members) => members,
        Err(message) => {
            return Err(ManifestError::Unreadable(message));
        },
    };
    let all = members_with(&members, binary_deps);
    let result = if members.is_some() {
        toml_with_members(root_toml, &all)
    } else {
        toml_with_workspace(root_toml, &all)
    };
    match result {
        Ok(text) => Ok(text),
        Err(message) => Err(ManifestError::Unwritable(message)),
    }
}

/// The members that a workspace had stay where they were, and the added ones come behind them, in their
/// order.
pub proof fn lemma_members_stay(members: Option<Seq<Text>>, added: Seq<Text>, i: int)
    ensures
        ({
            let had = if members is Some {
                members->Some_0.len()
            } else {
                0
            };
            let all = with_members(members, added);
            &&& all.len() == had + added.len()
            &&& 0 <= i < had ==> all[i] == members->Some_0[i]
            &&& 0 <= i < added.len() ==> all[had + i] == added[i]
        }),
{
}

/// A manifest that cannot be read is refused with what the reader says, and one that cannot be written
/// with what the writer says. Else it is written with the members that it had and the added ones behind
/// them; one without a workspace gets one with the added ones.
pub proof fn lemma_what_is_written(content: Text, added: Seq<Text>, members: Seq<Text>)
    ensures
        ({
            let r = injected(content, added);
            &&& manifest_members(content) matches Err(message) ==> r == Err::<
                Text,
                ManifestErrorView,
            >(ManifestErrorView::Unreadable(message))
            &&& manifest_members(content) == Ok::<Option<Seq<Text>>, Text>(Some(members)) ==> match (
                manifest_with_members(content, members + added)
            ) {
                Ok(text) => r == Ok::<Text, ManifestErrorView>(text),
                Err(message) => r == Err::<Text, ManifestErrorView>(
                    ManifestErrorView::Unwritable(message),
                ),
            }
            &&& manifest_members(content) == Ok::<Option<Seq<Text>>, Text>(None) ==> match (
                manifest_with_workspace(content, added)
            ) {
                Ok(text) => r == Ok::<Text, ManifestErrorView>(text),
                Err(message) => r == Err::<Text, ManifestErrorView>(
                    ManifestErrorView::Unwritable(message),
                ),
            }
        }),
{
}

} // verus!
