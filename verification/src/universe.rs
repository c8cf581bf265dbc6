//! The resolver of crate universes: which inputs it works from.

use vstd::prelude::*;

verus! {

/// The arguments of the resolver. A path is given as text.
#[derive(Debug, PartialEq, Eq)]
pub struct Opt {
    pub repo_name: String,
    pub repo_path: String,
    /// What Bazel says of the wanted crates.
    pub manifest: Option<String>,
    /// The lock file of Bazel.
    pub lock_file: Option<String>,
    pub cargo_manifests: Option<Vec<String>>,
    /// The lock file of Cargo.
    pub carg_lock_file: Option<String>,
    pub generate_lockfile: bool,
}

/// Where the wanted crates are stated.
#[derive(Debug, Clone, Copy, PartialEq, Eq, Structural)]
pub enum GenMode {
    /// In Bazel files.
    Bazel,
    /// In Bazel files and Cargo manifests.
    BazelCargo,
    /// In a Cargo workspace.
    Cargo,
}

/// Why the arguments do not go together.
#[derive(Debug, Clone, Copy, PartialEq, Eq, Structural)]
pub enum GenModeError {
    /// There is a Bazel lock file and no manifest.
    MissingManifest,
    /// There are lock files of Bazel and of Cargo.
    TwoLockFiles,
    /// There is a Cargo lock file and a Bazel manifest.
    BazelManifestWithCargoLock,
    /// There is a Cargo lock file and not exactly one Cargo manifest.
    NotOneCargoManifest,
    /// There is nothing to work from.
    Unsupported,
}

/// Whether more or fewer than one Cargo manifest is given.
pub open spec fn names_not_one_manifest(opt: &Opt) -> bool {
    opt.cargo_manifests matches Some(manifests) && manifests@.len() != 1
}

/// Where the wanted crates are stated, by the arguments.
pub open spec fn genmode_of(opt: &Opt) -> Result<GenMode, GenModeError> {
    if opt.lock_file is Some && opt.manifest is None {
        Err(GenModeError::MissingManifest)
    } else if opt.lock_file is Some && opt.carg_lock_file is Some {
        Err(GenModeError::TwoLockFiles)
    } else if opt.carg_lock_file is Some && opt.manifest is Some {
        Err(GenModeError::BazelManifestWithCargoLock)
    } else if opt.carg_lock_file is Some && names_not_one_manifest(opt) {
        Err(GenModeError::NotOneCargoManifest)
    } else if opt.carg_lock_file is Some {
        Ok(GenMode::Cargo)
    } else if opt.cargo_manifests is Some {
        Ok(GenMode::BazelCargo)
    } else if opt.manifest is Some {
        Ok(GenMode::Bazel)
    } else {
        Err(GenModeError::Unsupported)
    }
}

/// Tells where the wanted crates are stated. Fails if the arguments do not go together.
pub fn detect_genmode(opt: &Opt) -> (r: Result<GenMode, GenModeError>)
    ensures
        r == genmode_of(opt),
{
    if opt.lock_file.is_some() {
        if opt.manifest.is_none() {
            return Err(GenModeError::MissingManifest);
        }
        if opt.carg_lock_file.is_some() {
            return Err(GenModeError::TwoLockFiles);
        }
        if opt.cargo_manifests.is_some() {
            return Ok(GenMode::BazelCargo);
        }
        return Ok(GenMode::Bazel);
    }
    if opt.carg_lock_file.is_some() {
        if opt.manifest.is_some() {
            return Err(GenModeError::BazelManifestWithCargoLock);
        }
        if let Some(manifests) = &opt.cargo_manifests {
            if manifests.len() != 1 {
                return Err(GenModeError::NotOneCargoManifest);
            }
        }
        return Ok(GenMode::Cargo);
    }
    if opt.cargo_manifests.is_some() {
        return Ok(GenMode::BazelCargo);
    }
    if opt.manifest.is_some() {
        return Ok(GenMode::Bazel);
    }
    Err(GenModeError::Unsupported)
}

impl GenModeError {
    /// The message for this error; that for arguments that nothing can be made of ends where the
    /// arguments are to be printed.
    pub open spec fn text(self) -> Seq<char> {
        match self {
            GenModeError::MissingManifest => "Manifest info must be provided"@,
            GenModeError::TwoLockFiles => "Bazel lockfiles and Cargo lockfiles are not compatible. Please specify only 1"@,
            GenModeError::BazelManifestWithCargoLock => "When a Cargo.lock file is provided, Bazel mechanisms must be omitted"@,
            GenModeError::NotOneCargoManifest => "When providing a `Cargo.lock` file, exactly 1 manifest must provided"@,
            GenModeError::Unsupported => "No supported genmode for given arguments: "@,
        }
    }

    /// The message for this error.
    pub fn message(&self) -> (r: String)
        ensures
            r@ == self.text(),
    {
        match self {
            GenModeError::MissingManifest => "Manifest info must be provided".to_owned(),
            GenModeError::TwoLockFiles => "Bazel lockfiles and Cargo lockfiles are not compatible. Please specify only 1".to_owned(),
            GenModeError::BazelManifestWithCargoLock => "When a Cargo.lock file is provided, Bazel mechanisms must be omitted".to_owned(),
            GenModeError::NotOneCargoManifest => "When providing a `Cargo.lock` file, exactly 1 manifest must provided".to_owned(),
            GenModeError::Unsupported => "No supported genmode for given arguments: ".to_owned(),
        }
    }
}

/// Arguments with a Cargo lock file are those of a Cargo workspace or are refused. Arguments that
/// state the crates in Bazel files have no Cargo lock file, and there is a manifest of either sort.
/// A Bazel lock file never goes without a Bazel manifest.
pub proof fn lemma_genmode_inputs(opt: &Opt)
    ensures
        genmode_of(opt) == Ok::<GenMode, GenModeError>(GenMode::Cargo) <==> {
            &&& opt.carg_lock_file is Some
            &&& opt.lock_file is None
            &&& opt.manifest is None
            &&& !names_not_one_manifest(opt)
        },
        genmode_of(opt) == Ok::<GenMode, GenModeError>(GenMode::BazelCargo) <==> {
            &&& opt.carg_lock_file is None
            &&& opt.cargo_manifests is Some
            &&& opt.lock_file is Some ==> opt.manifest is Some
        },
        genmode_of(opt) == Ok::<GenMode, GenModeError>(GenMode::Bazel) <==> {
            &&& opt.carg_lock_file is None
            &&& opt.cargo_manifests is None
            &&& opt.manifest is Some
        },
        genmode_of(opt) == Err::<GenMode, GenModeError>(GenModeError::Unsupported) <==> {
            &&& opt.carg_lock_file is None
            &&& opt.cargo_manifests is None
            &&& opt.manifest is None
            &&& opt.lock_file is None
        },
{
}

/// Which arguments are refused, and why: a Bazel lock file without a Bazel manifest; else one beside a
/// Cargo lock file; without one, a Cargo lock file beside a Bazel manifest; and a Cargo lock file beside
/// Cargo manifests that are not exactly one.
pub proof fn lemma_genmode_errors(opt: &Opt)
    ensures
        genmode_of(opt) == Err::<GenMode, GenModeError>(GenModeError::MissingManifest) <==> {
            &&& opt.lock_file is Some
            &&& opt.manifest is None
        },
        genmode_of(opt) == Err::<GenMode, GenModeError>(GenModeError::TwoLockFiles) <==> {
            &&& opt.lock_file is Some
            &&& opt.carg_lock_file is Some
            &&& opt.manifest is Some
        },
        genmode_of(opt) == Err::<GenMode, GenModeError>(GenModeError::BazelManifestWithCargoLock)
            <==> {
            &&& opt.lock_file is None
            &&& opt.carg_lock_file is Some
            &&& opt.manifest is Some
        },
        genmode_of(opt) == Err::<GenMode, GenModeError>(GenModeError::NotOneCargoManifest) <==> {
            &&& opt.lock_file is None
            &&& opt.carg_lock_file is Some
            &&& opt.manifest is None
            &&& opt.cargo_manifests is Some
            &&& opt.cargo_manifests->Some_0@.len() == 0 || opt.cargo_manifests->Some_0@.len() > 1
        },
        genmode_of(opt) == Ok::<GenMode, GenModeError>(GenMode::Cargo) <==> {
            &&& opt.lock_file is None
            &&& opt.carg_lock_file is Some
            &&& opt.manifest is None
            &&& opt.cargo_manifests is Some ==> opt.cargo_manifests->Some_0@.len() == 1
        },
{
}

} // verus!
