use cargo_raze::context::{
    insert_alias, BuildableDependency, BuildableTarget, CrateDependencyContext,
    CrateTargetedDepContext, DependencyAlias, GitRepo, LicenseData, SourceDetails,
};
use cargo_raze::error::RazeError;
use cargo_raze::manifest::{inject_binaries_into_workspace, members_with, ManifestError};
use cargo_raze::paths::{FilePath, PathPart, WrittenPart, WrittenPath};
use cargo_raze::planning::checksums::{checksum_requests, ChecksumTable};
use cargo_raze::planning::binary_deps_request;
use cargo_raze::platform::{
    get_matching_bazel_triples, is_bazel_supported_platform, BazelTriple, Cfg, Platform,
    WrittenPlatform,
};
use cargo_raze::printing::Printed;
use cargo_raze::settings::{
    format_registry_url, BinaryDependency, CrateSettings, GenMode, RazeSettings,
    VersionedCrateSettings,
};
use cargo_raze::sorting::sort_ranked;
use cargo_raze::source::Source;
use cargo_raze::table::Table;
use cargo_raze::text::{ends_with, is_before, replace_text, sanitize_ident, trim_leading_slashes};
use cargo_raze::universe;
use cargo_raze::universe::{detect_genmode, GenModeError, Opt};
use cargo_raze::version::{Version, VersionReq};

fn s(text: &str) -> String {
    text.to_string()
}

fn names(parts: &[&str]) -> FilePath {
    FilePath { parts: parts.iter().map(|p| PathPart::Name(s(p))).collect() }
}

fn absolute(parts: &[&str]) -> FilePath {
    let mut path = names(parts);
    path.parts.insert(0, PathPart::Root(s("/")));
    path
}

#[test]
fn identifiers_are_sanitized() {
    assert_eq!(sanitize_ident("my-crate.2+x"), "my_crate_2_x");
    assert_eq!(sanitize_ident("already_fine9"), "already_fine9");
    assert_eq!(sanitize_ident("h\u{e9}"), "h_");
    assert_eq!(sanitize_ident(&sanitize_ident("a-b")), sanitize_ident("a-b"));
}

#[test]
fn texts_are_compared_and_rewritten() {
    assert!(is_before("abc", "abd"));
    assert!(is_before("ab", "abc"));
    assert!(!is_before("abc", "abc"));
    assert!(is_before("Z", "a"));
    assert!(ends_with("openssl-sys", "-sys"));
    assert!(!ends_with("sys", "-sys"));
    assert_eq!(trim_leading_slashes("//a/b"), "a/b");
    assert_eq!(replace_text("aaXaX", "aX", "-"), "a--");
    assert_eq!(replace_text("none", "{x}", "y"), "none");
}

#[test]
fn sorting_keeps_equal_items() {
    let alias = |target: &str, alias: &str| DependencyAlias { target: s(target), alias: s(alias) };
    let sorted = sort_ranked(vec![alias("b", "y"), alias("a", "z"), alias("b", "x"), alias("a", "z")]);
    assert_eq!(sorted, vec![alias("a", "z"), alias("a", "z"), alias("b", "x"), alias("b", "y")]);

    let mut set = vec![];
    assert!(insert_alias(&mut set, alias("b", "y")));
    assert!(insert_alias(&mut set, alias("a", "z")));
    assert!(!insert_alias(&mut set, alias("b", "y")));
    assert_eq!(set, vec![alias("a", "z"), alias("b", "y")]);
}

#[test]
fn paths_are_written_for_bazel() {
    assert_eq!(names(&["src", "lib.rs"]).to_bazel_path(), Some(s("src/lib.rs")));
    assert_eq!(absolute(&["src", "lib.rs"]).to_bazel_path(), Some(s("src/lib.rs")));
    assert_eq!(names(&[]).to_bazel_path(), Some(s("")));
    let raw = FilePath { parts: vec![PathPart::Raw(vec![0x66, 0xff])] };
    assert_eq!(raw.to_bazel_path(), None);
    assert_eq!(raw.parts[0].to_text(), "f\u{fffd}");
}

#[test]
fn paths_are_taken_apart() {
    let path = absolute(&["a", "b", "c"]);
    assert_eq!(path.strip_prefix(&absolute(&["a"])), Some(names(&["b", "c"])));
    assert_eq!(path.strip_prefix(&absolute(&["b"])), None);
    assert_eq!(path.join("d"), absolute(&["a", "b", "c", "d"]));
    assert_eq!(path.first_parts(2), absolute(&["a"]));
    assert!(path.is_absolute() && path.has_parent());
    assert!(absolute(&[]).is_absolute() && !absolute(&[]).has_parent());
    assert!(!names(&["a"]).is_absolute() && names(&["a"]).has_parent());
    assert!(!names(&[]).has_parent());
    let drive = |parts: Vec<PathPart>| FilePath { parts };
    let prefix = || PathPart::Prefix(s("C:"));
    assert!(drive(vec![prefix(), PathPart::Root(s("\\"))]).is_absolute());
    assert!(!drive(vec![prefix(), PathPart::Name(s("a"))]).is_absolute());
}

#[test]
fn paths_keep_what_stands_between_their_components() {
    let part = |gap: &str, part: PathPart| WrittenPart { gap: s(gap), part };
    let path = WrittenPath {
        parts: vec![
            part("", PathPart::Root(s("/"))),
            part("/", PathPart::Name(s("a"))),
            part("/./", PathPart::Name(s("b\"c"))),
            part("/", PathPart::Raw(vec![0x66, 0xff])),
        ],
        printed: s("what the path prints"),
    };
    assert_eq!(path.path().parts[2], PathPart::Name(s("b\"c")));
    assert_eq!(path.text_between(0, 4), "//a/./b\"c/f\u{fffd}");
    assert_eq!(path.text_between(1, 3), "a/./b\"c");
    assert_eq!(path.text_between(2, 2), "");
}

#[test]
fn versions_are_read_and_ordered() {
    let version = |text: &str| Version::parse(text).unwrap();
    assert_eq!(version("1.2.3-rc.1+build").to_text(), "1.2.3-rc.1+build");
    assert!(matches!(
        Version::parse("1.2"),
        Err(RazeError::Version(m))
            if m == "unexpected end of input while parsing minor version number"
    ));
    assert!(Version::parse("99999999999999999999.0.0").is_err());
    assert!(version("1.9.0").at_most(&version("1.10.0")));
    assert!(!version("1.10.0").at_most(&version("1.9.0")));
    assert!(version("1.0.0-alpha").at_most(&version("1.0.0")));
    assert!(version("1.0.0+a").at_most(&version("1.0.0+b")));
}

#[test]
fn requirements_are_matched_and_printed() {
    let version = Version::parse("0.10.2").unwrap();
    let req = VersionReq::parse("^0.10").unwrap();
    assert!(req.matches(&version));
    assert!(!VersionReq::parse("0.9").unwrap().matches(&version));
    assert_eq!(VersionReq::parse("1.0").unwrap().to_text(), "^1.0");
    assert!(matches!(
        VersionReq::parse("not a version"),
        Err(RazeError::Version(m))
            if m == "unexpected character 'n' while parsing major version number"
    ));
}

#[test]
fn sources_are_read() {
    let url = "registry+https://github.com/rust-lang/crates.io-index";
    let registry = Source::new(url);
    assert_eq!(registry.to_text(), url);
    assert!(!registry.id().as_ref().unwrap().is_git());
    let git = Source::new("git+https://example.com/repo.git#abcdef");
    let id = git.id().as_ref().unwrap();
    assert!(id.is_git());
    assert_eq!(id.url, "https://example.com/repo.git");
    assert_eq!(id.precise, Some(s("abcdef")));
    let unlocked = Source::new("git+https://example.com/repo.git");
    assert_eq!(unlocked.id().as_ref().unwrap().precise, None);
    let nonsense = Source::new("nonsense");
    assert!(nonsense.id().is_none());
    assert_eq!(nonsense.to_text(), "nonsense");
}

#[test]
fn platforms_are_matched() {
    let linux = BazelTriple {
        triple: s("x86_64-unknown-linux-gnu"),
        cfgs: vec![Cfg::Name(s("unix")), Cfg::KeyPair(s("target_os"), s("linux"))],
    };
    let windows = BazelTriple {
        triple: s("x86_64-pc-windows-msvc"),
        cfgs: vec![Cfg::Name(s("windows"))],
    };
    let triples = vec![linux, windows];
    let platform = |repr: &str| Platform::new(repr).unwrap();
    let check = |repr: &str| is_bazel_supported_platform(&platform(repr), &triples);
    assert_eq!(check("cfg(unix)"), (true, false));
    assert_eq!(check("cfg(any(unix, windows))"), (true, true));
    assert_eq!(check("cfg(target_os = \"redox\")"), (false, false));
    assert_eq!(check("x86_64-pc-windows-msvc"), (true, false));
    assert!(Platform::new("cfg(unix").is_none());
    assert!(WrittenPlatform::new("cfg(unix").platform().is_none());
    let written = WrittenPlatform::new("cfg(unix)");
    assert_eq!(written.platform().as_ref().unwrap().to_text(), "cfg(unix)");
    let all = |repr: &str, allowed: Option<Vec<String>>| {
        get_matching_bazel_triples(&platform(repr), &triples, &allowed)
    };
    assert_eq!(all("cfg(not(windows))", None), vec!["x86_64-unknown-linux-gnu"]);
    assert_eq!(
        all("cfg(any(unix, windows))", Some(vec![s("x86_64-pc-windows-msvc")])),
        vec!["x86_64-pc-windows-msvc"]
    );
}

#[test]
fn registry_urls_are_filled_in() {
    assert_eq!(
        format_registry_url("https://r/{crate}/{version}/{crate}.tgz", "abc", "1.0.0"),
        "https://r/abc/1.0.0/abc.tgz"
    );
}

#[test]
fn a_table_holds_each_key_once() {
    let dep = |name: &str, req: &str| BinaryDependency { name: s(name), req: s(req) };
    let table = Table::from_items(vec![dep("a", "1"), dep("b", "2"), dep("a", "3"), dep("c", "4")]);
    assert_eq!(table.items(), &vec![dep("a", "3"), dep("b", "2"), dep("c", "4")]);
    assert_eq!(table.clone(), table);
    // One requirement can be written in two ways.
    let with = |req: &str, flag: &str| {
        let mut settings = CrateSettings::default();
        settings.additional_flags = vec![s(flag)];
        VersionedCrateSettings { req: VersionReq::parse(req).unwrap(), settings }
    };
    let table = Table::from_items(vec![with("1.0", "a"), with("2", "b"), with("^1.0", "c")]);
    let flags: Vec<&str> =
        table.items().iter().map(|v| v.settings.additional_flags[0].as_str()).collect();
    assert_eq!(flags, vec!["c", "b"]);
}

#[test]
fn the_last_checksum_counts() {
    let version = |text: &str| Version::parse(text).unwrap();
    let mut table = ChecksumTable::new();
    table.insert("abc", version("1.0.0"), "first");
    table.insert("abc", version("1.0.0"), "second");
    table.insert("abc", version("2.0.0"), "other");
    assert_eq!(table.get("abc", &version("1.0.0")), Some(s("second")));
    assert_eq!(table.get("abc", &version("2.0.0")), Some(s("other")));
    assert_eq!(table.get("abc", &version("3.0.0")), None);
}

fn settings(genmode: GenMode, binary_deps: &[(&str, &str)]) -> RazeSettings {
    RazeSettings {
        workspace_path: s("//cargo"),
        gen_workspace_prefix: s("raze"),
        output_buildfile_suffix: s("BUILD"),
        genmode,
        default_gen_buildrs: true,
        binary_deps: Table::from_items(
            binary_deps
                .iter()
                .map(|(name, req)| BinaryDependency { name: s(name), req: s(req) })
                .collect(),
        ),
        registry: s("https://registry"),
        index_url: s("https://index"),
        crates: Table::from_items(vec![]),
        target: None,
        targets: None,
    }
}

#[test]
fn the_index_is_asked_of_binaries() {
    let deps = [("a", "1.0.0"), ("b", "2.0.0"), ("c", "latest"), ("d", "4.0.0")];
    let asked: Vec<String> = checksum_requests(&settings(GenMode::Remote, &deps))
        .iter()
        .map(|r| format!("{} {} {}", r.index_url, r.name, r.version.to_text()))
        .collect();
    assert_eq!(asked, vec!["https://index a 1.0.0", "https://index b 2.0.0"]);
    assert!(checksum_requests(&settings(GenMode::Vendored, &deps)).is_empty());
}

#[test]
fn binaries_are_gathered_where_bazel_fetches() {
    let remote = settings(GenMode::Remote, &[("a", "1.0.0")]);
    let prefix = absolute(&["workspace"]);
    let request =
        binary_deps_request(&remote, &prefix, &Ok(absolute(&["tmp"]))).unwrap().unwrap();
    assert_eq!(request.binary_deps, remote.binary_deps);
    assert_eq!(request.registry, "https://registry");
    assert_eq!(request.lockfiles, absolute(&["workspace", "lockfiles"]));
    assert_eq!(request.tempdir, absolute(&["tmp"]));
    let failed = binary_deps_request(&remote, &prefix, &Err(s("disk full")));
    assert!(matches!(failed, Err(RazeError::Generic(m)) if m == "disk full"));
    let vendored = settings(GenMode::Vendored, &[("a", "1.0.0")]);
    assert!(matches!(binary_deps_request(&vendored, &prefix, &Err(s("disk full"))), Ok(None)));
}

const PACKAGE: &str = "[package]\nname = \"root\"\nversion = \"0.1.0\"\n";

fn members(toml: &str) -> Vec<String> {
    cargo_toml::Manifest::from_str(toml).unwrap().workspace.unwrap().members
}

#[test]
fn binaries_become_members_of_the_workspace() {
    let deps = vec![s("tool-1.0.0"), s("other \"tool\"")];
    let plain = inject_binaries_into_workspace(PACKAGE, &deps).unwrap();
    assert_eq!(members(&plain), deps);
    assert_eq!(cargo_toml::Manifest::from_str(&plain).unwrap().package.unwrap().name, "root");

    let workspace =
        format!("{}\n[workspace]\nmembers = [\"a\", \"b\"]\nexclude = [\"c\"]\n", PACKAGE);
    let injected = inject_binaries_into_workspace(&workspace, &deps).unwrap();
    assert_eq!(members(&injected), vec![s("a"), s("b"), s("tool-1.0.0"), s("other \"tool\"")]);
    let read = cargo_toml::Manifest::from_str(&injected).unwrap();
    assert_eq!(read.workspace.unwrap().exclude, vec!["c"]);

    let again = inject_binaries_into_workspace(&injected, &vec![s("last")]).unwrap();
    assert_eq!(members(&again).len(), 5);
    assert_eq!(members(&again)[4], "last");

    match inject_binaries_into_workspace("no manifest", &deps) {
        Err(ManifestError::Unreadable(message)) => {
            let error = cargo_toml::Manifest::from_str("no manifest").unwrap_err();
            assert_eq!(message, error.to_string());
            assert!(!message.is_empty());
        },
        other => panic!("{:?}", other),
    }
    assert_eq!(members_with(&None, &deps), deps);
    assert_eq!(members_with(&Some(vec![s("x")]), &vec![s("y")]), vec![s("x"), s("y")]);
}

fn opt(
    manifest: bool,
    lock_file: bool,
    cargo_manifests: Option<usize>,
    carg_lock_file: bool,
) -> Opt {
    let path = |given: bool| if given { Some(s("path")) } else { None };
    Opt {
        repo_name: s("repo"),
        repo_path: s("repo_path"),
        manifest: path(manifest),
        lock_file: path(lock_file),
        cargo_manifests: cargo_manifests.map(|n| vec![s("Cargo.toml"); n]),
        carg_lock_file: path(carg_lock_file),
        generate_lockfile: false,
    }
}

#[test]
fn the_genmode_follows_from_the_arguments() {
    let detect = |m, l, c, k| detect_genmode(&opt(m, l, c, k));
    assert_eq!(detect(true, true, None, false), Ok(universe::GenMode::Bazel));
    assert_eq!(detect(true, false, None, false), Ok(universe::GenMode::Bazel));
    assert_eq!(detect(true, true, Some(2), false), Ok(universe::GenMode::BazelCargo));
    assert_eq!(detect(false, false, Some(0), false), Ok(universe::GenMode::BazelCargo));
    assert_eq!(detect(false, false, None, true), Ok(universe::GenMode::Cargo));
    assert_eq!(detect(false, false, Some(1), true), Ok(universe::GenMode::Cargo));
    assert_eq!(detect(false, true, None, false), Err(GenModeError::MissingManifest));
    assert_eq!(detect(false, true, None, true), Err(GenModeError::MissingManifest));
    assert_eq!(detect(true, true, None, true), Err(GenModeError::TwoLockFiles));
    assert_eq!(detect(true, false, None, true), Err(GenModeError::BazelManifestWithCargoLock));
    assert_eq!(detect(false, false, Some(2), true), Err(GenModeError::NotOneCargoManifest));
    assert_eq!(detect(false, false, Some(0), true), Err(GenModeError::NotOneCargoManifest));
    assert_eq!(detect(false, false, None, false), Err(GenModeError::Unsupported));
}

#[test]
fn every_error_has_its_message() {
    assert_eq!(GenModeError::MissingManifest.message(), "Manifest info must be provided");
    assert_eq!(
        GenModeError::TwoLockFiles.message(),
        "Bazel lockfiles and Cargo lockfiles are not compatible. Please specify only 1"
    );
    assert_eq!(
        GenModeError::BazelManifestWithCargoLock.message(),
        "When a Cargo.lock file is provided, Bazel mechanisms must be omitted"
    );
    assert_eq!(
        GenModeError::NotOneCargoManifest.message(),
        "When providing a `Cargo.lock` file, exactly 1 manifest must provided"
    );
    assert_eq!(
        GenModeError::Unsupported.message(),
        "No supported genmode for given arguments: "
    );
}

#[test]
fn values_are_printed_over_several_lines() {
    let texts = vec![s("a \"b\"\n"), s("\u{e9}\\")];
    assert_eq!(texts.debug_text(), format!("{:#?}", texts));
    assert_eq!(texts.debug_text(), "[\n    \"a \\\"b\\\"\\n\",\n    \"\u{e9}\\\\\",\n]");
    let none: Vec<String> = vec![];
    assert_eq!(none.debug_text(), "[]");
    assert_eq!(Some(true).debug_text(), "Some(\n    true,\n)");
    assert_eq!(Some(Some(false)).debug_text(), format!("{:#?}", Some(Some(false))));
    assert_eq!(Some(texts.clone()).debug_text(), format!("{:#?}", Some(texts)));
    let nothing: Option<String> = None;
    assert_eq!(nothing.debug_text(), "None");
    let version = Version::parse("1.2.3-rc.1").unwrap();
    assert_eq!(
        version.debug_text(),
        format!("{:#?}", semver::Version::parse("1.2.3-rc.1").unwrap())
    );

    let git = SourceDetails {
        git_data: Some(GitRepo {
            remote: s("https://example.com"),
            commit: s("abc"),
            path_to_crate_root: None,
        }),
    };
    assert_eq!(git.debug_text(), format!("{:#?}", git));
    let mut settings = CrateSettings::default();
    settings.patches = vec![s("a.patch"), s("b.patch")];
    settings.gen_buildrs = Some(false);
    assert_eq!(settings.debug_text(), format!("{:#?}", settings));
    let target = BuildableTarget { kind: s("lib"), name: s("a"), path: s("p"), edition: s("2018") };
    assert_eq!(target.debug_text(), format!("{:#?}", target));
    let license = LicenseData { license: s("MIT") };
    assert_eq!(license.debug_text(), "LicenseData {\n    license: \"MIT\",\n}");

    // Aliases are printed as a set, and versions as semver prints them.
    let mut deps = CrateDependencyContext::default();
    deps.aliased_dependencies = vec![DependencyAlias { target: s("t"), alias: s("a") }];
    deps.dependencies = vec![BuildableDependency {
        buildable_target: s("//:b"),
        name: s("b"),
        version: Version::parse("1.0.0").unwrap(),
        is_proc_macro: false,
    }];
    let targeted = CrateTargetedDepContext {
        target: s("cfg(unix)"),
        deps,
        platform_targets: vec![s("x")],
    };
    assert_eq!(
        targeted.debug_text(),
        "CrateTargetedDepContext {
    target: \"cfg(unix)\",
    deps: CrateDependencyContext {
        dependencies: [
            BuildableDependency {
                buildable_target: \"//:b\",
                name: \"b\",
                version: Version {
                    major: 1,
                    minor: 0,
                    patch: 0,
                },
                is_proc_macro: false,
            },
        ],
        proc_macro_dependencies: [],
        build_dependencies: [],
        build_proc_macro_dependencies: [],
        dev_dependencies: [],
        aliased_dependencies: {
            DependencyAlias {
                target: \"t\",
                alias: \"a\",
            },
        },
    },
    platform_targets: [
        \"x\",
    ],
}"
    );
}
