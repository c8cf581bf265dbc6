use cargo_raze::context::{
    BuildableDependency, CrateContext, CrateDependencyContext, CrateTargetedDepContext,
    DependencyAlias,
};
use cargo_raze::error::RazeError;
use cargo_raze::metadata::{
    BinaryDepFiles, BinaryDependencyInfo, CargoWorkspaceFiles, DepKindInfo, Dependency,
    DependencyKind, LockFile, LockedPackage, Metadata, Node, NodeDep, Package, Resolve, Target,
};
use cargo_raze::paths::{FilePath, PathPart, WrittenPart, WrittenPath};
use cargo_raze::planning::crate_catalog::CrateCatalog;
use cargo_raze::planning::crate_subplanner::CrateSubplanner;
use cargo_raze::planning::facts::{IndexChecksum, WorkspaceFacts};
use cargo_raze::planning::{BuildPlanner, BuildPlannerImpl, PlannedBuild};
use cargo_raze::platform::{BazelTriple, Cfg, PlatformDetails, WrittenPlatform};
use cargo_raze::printing::Printed;
use cargo_raze::settings::{
    BinaryDependency, CrateSettings, GenMode, NamedCrateSettings, RazeSettings,
    VersionedCrateSettings,
};
use cargo_raze::source::Source;
use cargo_raze::table::Table;
use cargo_raze::version::{Version, VersionReq};

const REGISTRY: &str = "registry+https://github.com/rust-lang/crates.io-index";

fn s(text: &str) -> String {
    text.to_string()
}

fn path(text: &str) -> FilePath {
    let mut parts = Vec::new();
    if text.starts_with('/') {
        parts.push(PathPart::Root(s("/")));
    }
    for name in text.split('/').filter(|name| !name.is_empty()) {
        parts.push(PathPart::Name(s(name)));
    }
    FilePath { parts }
}

/// A path with one slash between its names.
fn written(text: &str) -> WrittenPath {
    let parts = path(text).parts.into_iter().enumerate();
    WrittenPath {
        parts: parts
            .map(|(i, part)| WrittenPart { gap: s(if i > 1 { "/" } else { "" }), part })
            .collect(),
        printed: format!("{:?}", text),
    }
}

fn version(text: &str) -> Version {
    Version::parse(text).unwrap()
}

fn id(name: &str, ver: &str) -> String {
    format!("{} {} ({})", name, ver, REGISTRY)
}

fn package(name: &str, ver: &str) -> Package {
    let root = format!("/registry/src/{}-{}", name, ver);
    Package {
        name: s(name),
        version: version(ver),
        id: id(name, ver),
        license: Some(s("MIT")),
        source: Some(Source::new(REGISTRY)),
        dependencies: Vec::new(),
        targets: vec![Target {
            name: name.replace('-', "_"),
            kind: vec![s("lib")],
            crate_types: vec![s("lib")],
            src_path: written(&format!("{}/src/lib.rs", root)),
            edition: s("2018"),
        }],
        manifest_path: written(&format!("{}/Cargo.toml", root)),
        edition: s("2018"),
    }
}

fn proc_macro(name: &str, ver: &str) -> Package {
    let mut package = package(name, ver);
    package.targets[0].kind = vec![s("proc-macro")];
    package.targets[0].crate_types = vec![s("proc-macro")];
    package
}

fn declared(name: &str, req: &str, rename: Option<&str>) -> Dependency {
    Dependency {
        name: s(name),
        source: Some(s(REGISTRY)),
        req: VersionReq::parse(req).unwrap(),
        rename: rename.map(s),
    }
}

fn root_id(name: &str) -> String {
    format!("{} 0.1.0 (path+file:///workspace)", name)
}

fn root_package(name: &str, ver: &str) -> Package {
    Package {
        name: s(name),
        version: version(ver),
        id: root_id(name),
        license: None,
        source: None,
        dependencies: Vec::new(),
        targets: vec![Target {
            name: s(name),
            kind: vec![s("lib")],
            crate_types: vec![s("lib")],
            src_path: written("/workspace/not_a_file.rs"),
            edition: s("2015"),
        }],
        manifest_path: written("/workspace/Cargo.toml"),
        edition: s("2015"),
    }
}

fn kind(kind: DependencyKind, target: Option<&str>) -> DepKindInfo {
    DepKindInfo { kind, target: target.map(WrittenPlatform::new) }
}

fn dep_for(name: &str, pkg: &str, kinds: Vec<DepKindInfo>) -> NodeDep {
    NodeDep { name: s(name), pkg: s(pkg), dep_kinds: kinds }
}

/// A dependency of a crate itself, on all platforms.
fn dep(name: &str, ver: &str) -> NodeDep {
    dep_for(&name.replace('-', "_"), &id(name, ver), vec![kind(DependencyKind::Normal, None)])
}

fn node(id: &str, deps: Vec<NodeDep>) -> Node {
    Node {
        id: s(id),
        dependencies: deps.iter().map(|d| d.pkg.clone()).collect(),
        deps,
        features: Vec::new(),
    }
}

/// What Cargo says of a workspace of one package that depends on others.
fn metadata(root: Package, root_deps: Vec<NodeDep>, others: Vec<(Package, Vec<NodeDep>)>) -> Metadata {
    let root_id = root.id.clone();
    let mut packages = vec![root];
    let mut nodes = vec![node(&root_id, root_deps)];
    for (package, deps) in others {
        nodes.push(node(&package.id, deps));
        packages.push(package);
    }
    Metadata {
        packages,
        workspace_members: vec![root_id.clone()],
        resolve: Some(Resolve { nodes, root: Some(root_id) }),
    }
}

/// What Cargo says of a workspace of one package that depends on nothing.
fn basic_metadata() -> Metadata {
    metadata(root_package("test", "0.0.1"), Vec::new(), Vec::new())
}

/// The same with a dependency that the root has a node for, and no more.
fn with_test_dep(metadata: Metadata) -> Metadata {
    let mut new_package = metadata.packages[0].clone();
    new_package.name = s("test_dep");
    new_package.id = s("test_dep_id");
    new_package.version = version("0.0.1");
    let resolve = metadata.resolve.as_ref().unwrap();
    let mut nodes = resolve.nodes.clone();
    nodes[0].dependencies.push(s("test_dep_id"));
    nodes.push(node("test_dep_id", Vec::new()));
    let root = resolve.root.clone();
    let mut packages = metadata.packages.clone();
    packages.push(new_package);
    Metadata {
        packages,
        workspace_members: metadata.workspace_members.clone(),
        resolve: Some(Resolve { nodes, root }),
    }
}

/// The same with one more package in the workspace.
fn with_workspace_crate(mut metadata: Metadata) -> Metadata {
    let mut new_package = metadata.packages[0].clone();
    new_package.name = s("ws_crate_dep");
    new_package.id = s("ws_crate_dep_id");
    new_package.version = version("0.0.1");
    metadata.packages.push(new_package);
    metadata.workspace_members.push(s("ws_crate_dep_id"));
    metadata
}

fn dummy_raze_settings() -> RazeSettings {
    RazeSettings {
        workspace_path: s("//cargo"),
        gen_workspace_prefix: s("raze_test"),
        output_buildfile_suffix: s("BUILD"),
        genmode: GenMode::Remote,
        default_gen_buildrs: true,
        binary_deps: Table::from_items(Vec::new()),
        registry: s("https://crates.io/api/v1/crates/{crate}/{version}/download"),
        index_url: s("https://github.com/rust-lang/crates.io-index"),
        crates: Table::from_items(Vec::new()),
        target: None,
        targets: None,
    }
}

/// One crate that is wanted for its binaries.
fn binary(name: &str, req: &str) -> Table<BinaryDependency> {
    Table::from_items(vec![BinaryDependency { name: s(name), req: s(req) }])
}

fn unix(triple: &str, os: &str) -> BazelTriple {
    BazelTriple {
        triple: s(triple),
        cfgs: vec![Cfg::Name(s("unix")), Cfg::KeyPair(s("target_os"), s(os))],
    }
}

fn windows(triple: &str) -> BazelTriple {
    BazelTriple {
        triple: s(triple),
        cfgs: vec![Cfg::Name(s("windows")), Cfg::KeyPair(s("target_os"), s("windows"))],
    }
}

fn bazel_triples() -> Vec<BazelTriple> {
    vec![
        unix("i686-apple-darwin", "macos"),
        windows("i686-pc-windows-msvc"),
        unix("i686-unknown-linux-gnu", "linux"),
        unix("x86_64-apple-darwin", "macos"),
        windows("x86_64-pc-windows-msvc"),
        unix("x86_64-unknown-linux-gnu", "linux"),
        unix("aarch64-apple-ios", "ios"),
        unix("aarch64-linux-android", "android"),
        unix("aarch64-unknown-linux-gnu", "linux"),
        unix("arm-unknown-linux-gnueabi", "linux"),
        unix("i686-linux-android", "android"),
        unix("i686-unknown-freebsd", "freebsd"),
        unix("powerpc-unknown-linux-gnu", "linux"),
        unix("s390x-unknown-linux-gnu", "linux"),
        unix("x86_64-apple-ios", "ios"),
        unix("x86_64-linux-android", "android"),
        unix("x86_64-unknown-freebsd", "freebsd"),
        BazelTriple {
            triple: s("wasm32-unknown-unknown"),
            cfgs: vec![Cfg::KeyPair(s("target_arch"), s("wasm32"))],
        },
    ]
}

fn facts() -> WorkspaceFacts {
    WorkspaceFacts {
        git_roots: Vec::new(),
        vendored_crates: Vec::new(),
        index_checksums: Vec::new(),
        bazel_triples: bazel_triples(),
    }
}

fn no_binaries() -> Result<BinaryDependencyInfo, String> {
    Ok(BinaryDependencyInfo { metadata: Vec::new(), files: Table::from_items(Vec::new()) })
}

fn files() -> CargoWorkspaceFiles {
    CargoWorkspaceFiles { toml_path: s("/workspace/Cargo.toml"), lock_file_opt: None }
}

fn some_target() -> Option<PlatformDetails> {
    Some(PlatformDetails::new(s("some_target_triple"), Vec::new()))
}

fn planner(metadata: Metadata) -> BuildPlannerImpl {
    BuildPlannerImpl::new(Ok(metadata), Ok(path("/tmp/binaries")), no_binaries(), facts())
}

fn plan(metadata: Metadata, settings: &RazeSettings) -> Result<PlannedBuild, RazeError> {
    planner(metadata).plan_build(settings, &path("/workspace"), files(), some_target())
}

fn do_planning(
    metadata: Metadata,
    settings: Option<RazeSettings>,
    platform: Option<PlatformDetails>,
) -> PlannedBuild {
    let settings = settings.unwrap_or_else(dummy_raze_settings);
    let platform = platform.or_else(some_target);
    planner(with_workspace_crate(metadata))
        .plan_build(&settings, &path("/workspace"), files(), platform)
        .unwrap()
}

/// The context of a crate.
fn crate_ctx<'a>(crates: &'a [CrateContext], name: &str, ver_req: Option<&str>) -> &'a CrateContext {
    let ver_req = VersionReq::parse(ver_req.unwrap_or("*")).unwrap();
    crates
        .iter()
        .find(|dep| dep.pkg_name == name && ver_req.matches(&dep.pkg_version))
        .unwrap_or_else(|| panic!("{} not found", name))
}

#[test]
fn test_plan_build_missing_resolve_returns_error() {
    let mut metadata = basic_metadata();
    assert!(metadata.resolve.is_some());
    metadata.resolve = None;
    let res = plan(metadata, &dummy_raze_settings());
    assert!(res.is_err());
    assert!(matches!(res, Err(RazeError::Generic(message)) if message == "Missing resolve graph"));
}

#[test]
fn test_plan_build_missing_package_in_metadata() {
    let mut metadata = basic_metadata();
    metadata.packages.clear();
    let planned_build_res = plan(metadata, &dummy_raze_settings());
    assert!(planned_build_res.is_err());
}

#[test]
fn test_plan_build_minimum_workspace() {
    let planned_build_res = plan(basic_metadata(), &dummy_raze_settings());
    assert!(planned_build_res.unwrap().crate_contexts.is_empty());
}

#[test]
fn test_plan_build_minimum_root_dependency() {
    let planned_build_res = plan(with_test_dep(basic_metadata()), &dummy_raze_settings());

    println!("{:#?}", planned_build_res);
    let planned_build = planned_build_res.unwrap();
    assert_eq!(planned_build.crate_contexts.len(), 1);
    let dep = planned_build.crate_contexts.get(0).unwrap();
    assert_eq!(dep.pkg_name, "test_dep");
    assert_eq!(dep.is_root_dependency, true);
    assert!(
        !dep.workspace_path_to_crate.contains("."),
        "{} should be sanitized",
        dep.workspace_path_to_crate
    );
    assert!(
        !dep.workspace_path_to_crate.contains("-"),
        "{} should be sanitized",
        dep.workspace_path_to_crate
    );
}

#[test]
fn test_plan_build_verifies_vendored_state() {
    let mut settings = dummy_raze_settings();
    settings.genmode = GenMode::Vendored;
    let planned_build_res = plan(with_test_dep(basic_metadata()), &settings);

    println!("{:#?}", planned_build_res);
    assert!(planned_build_res.is_err());
}

#[test]
fn test_plan_build_ignores_workspace_crates() {
    let mut settings = dummy_raze_settings();
    settings.genmode = GenMode::Vendored;

    let planned_build = plan(with_workspace_crate(basic_metadata()), &settings).unwrap();
    assert!(planned_build.crate_contexts.is_empty());
    assert!(planned_build.workspace_aliases.is_empty());
}

fn actix_metadata() -> Metadata {
    let mut actix_http = package("actix-http", "1.0.1");
    actix_http.dependencies = vec![
        declared("actix-rt", "^1.0.0", None),
        declared("bytes", "^0.5.3", None),
        declared("failure", "^0.1.5", Some("fail-ure")),
    ];
    metadata(
        root_package("advanced_toml", "0.1.0"),
        vec![dep("actix-rt", "1.0.0"), dep("actix-web", "2.0.0")],
        vec![
            (package("actix-rt", "1.0.0"), vec![]),
            (
                package("actix-web", "2.0.0"),
                vec![dep("actix-http", "1.0.1"), dep("actix-rt", "1.0.0")],
            ),
            (
                actix_http,
                vec![
                    dep("actix-rt", "1.0.0"),
                    dep("bytes", "0.5.6"),
                    dep_for(
                        "fail_ure",
                        &id("failure", "0.1.8"),
                        vec![kind(DependencyKind::Normal, None)],
                    ),
                ],
            ),
            (package("bytes", "0.5.6"), vec![]),
            (package("failure", "0.1.8"), vec![]),
        ],
    )
}

#[test]
fn test_plan_build_produces_aliased_dependencies() {
    let planned_build = do_planning(actix_metadata(), None, None);

    let crates_with_aliased_deps: Vec<CrateContext> = planned_build
        .crate_contexts
        .into_iter()
        .filter(|krate| krate.default_deps.aliased_dependencies.len() != 0)
        .collect();

    assert!(crates_with_aliased_deps.len() != 0, "Crates with aliased dependencies is 0");

    let actix_http_context = crate_ctx(&crates_with_aliased_deps, "actix-http", None);

    assert!(actix_http_context.default_deps.aliased_dependencies.len() == 1);
    let failure_alias = actix_http_context
        .default_deps
        .aliased_dependencies
        .iter()
        .find(|x| x.target == "@raze_test__failure__0_1_8//:failure")
        .expect("Should contain an alias for actix-http");
    assert_eq!(&failure_alias.alias, "fail_ure");
}

#[test]
fn test_plan_build_produces_root_aliases() {
    let mut root = root_package("advanced_toml", "0.1.0");
    root.dependencies = vec![
        declared("bytes", "=0.6.0", None),
        declared("bytes", "=0.3.0", Some("bytes_old")),
    ];
    let planned_build = do_planning(
        metadata(
            root,
            vec![
                dep("bytes", "0.6.0"),
                dep_for(
                    "bytes_old",
                    &id("bytes", "0.3.0"),
                    vec![kind(DependencyKind::Normal, None)],
                ),
            ],
            vec![
                (package("bytes", "0.6.0"), vec![]),
                (package("bytes", "0.3.0"), vec![dep("byteorder", "1.3.4")]),
                (package("byteorder", "1.3.4"), vec![]),
            ],
        ),
        None,
        None,
    );

    // Only "root" deps should get an alias
    assert_eq!(
        planned_build.workspace_aliases,
        vec! {
            DependencyAlias {
                target: "@raze_test__bytes__0_3_0//:bytes".to_string(),
                alias: "bytes_old".to_string()
            },
            DependencyAlias {
                target: "@raze_test__bytes__0_6_0//:bytes".to_string(),
                alias: "bytes".to_string()
            }
        }
    );
}

#[test]
fn test_plan_build_produces_proc_macro_dependencies() {
    let planned_build = do_planning(
        metadata(
            root_package("advanced_toml", "0.1.0"),
            vec![dep("serde", "1.0.112")],
            vec![
                (package("serde", "1.0.112"), vec![dep("serde_derive", "1.0.112")]),
                (proc_macro("serde_derive", "1.0.112"), vec![dep("syn", "1.0.48")]),
                (package("syn", "1.0.48"), vec![]),
            ],
        ),
        None,
        None,
    );

    let serde = crate_ctx(&planned_build.crate_contexts, "serde", None);

    let serde_derive_proc_macro_deps: Vec<_> = serde
        .default_deps
        .proc_macro_dependencies
        .iter()
        .filter(|dep| dep.name == "serde_derive")
        .collect();
    assert_eq!(serde_derive_proc_macro_deps.len(), 1);

    let serde_derive_normal_deps: Vec<_> = serde
        .default_deps
        .dependencies
        .iter()
        .filter(|dep| dep.name == "serde_derive")
        .collect();
    assert_eq!(serde_derive_normal_deps.len(), 0);
}

fn build_dep(name: &str, ver: &str) -> NodeDep {
    dep_for(&name.replace('-', "_"), &id(name, ver), vec![kind(DependencyKind::Build, None)])
}

fn markup_metadata() -> Metadata {
    metadata(
        root_package("advanced_toml", "0.1.0"),
        vec![dep("markup5ever", "0.10.0")],
        vec![
            (
                package("markup5ever", "0.10.0"),
                vec![
                    dep("log", "0.4.11"),
                    build_dep("serde", "1.0.117"),
                    build_dep("serde_derive", "1.0.117"),
                ],
            ),
            (package("log", "0.4.11"), vec![]),
            (package("serde", "1.0.117"), vec![]),
            (proc_macro("serde_derive", "1.0.117"), vec![]),
        ],
    )
}

#[test]
fn test_plan_build_produces_build_proc_macro_dependencies() {
    let planned_build = do_planning(markup_metadata(), None, None);

    let markup = crate_ctx(&planned_build.crate_contexts, "markup5ever", None);

    let markup_proc_macro_deps: Vec<_> = markup
        .default_deps
        .proc_macro_dependencies
        .iter()
        .filter(|dep| dep.name == "serde_derive")
        .collect();
    assert_eq!(markup_proc_macro_deps.len(), 0);

    let markup_build_proc_macro_deps: Vec<_> = markup
        .default_deps
        .build_proc_macro_dependencies
        .iter()
        .filter(|dep| dep.name == "serde_derive")
        .collect();
    assert_eq!(markup_build_proc_macro_deps.len(), 1);
}

#[test]
fn test_subplan_produces_crate_root_with_forward_slash() {
    let planned_build = do_planning(markup_metadata(), None, None);

    assert_eq!(planned_build.crate_contexts[0].targets[0].path, "src/lib.rs");
}

/// What Cargo says of a crate that is wanted for its binaries.
fn binary_metadata(name: &str, ver: &str) -> Metadata {
    let mut krate = package(name, ver);
    krate.source = None;
    krate.targets[0].kind = vec![s("bin")];
    krate.targets[0].crate_types = vec![s("bin")];
    metadata(krate, Vec::new(), Vec::new())
}

#[test]
fn test_binary_dependencies_remote_genmode() {
    let mut settings = dummy_raze_settings();
    settings.genmode = GenMode::Remote;
    settings.registry = s("http://127.0.0.1:5000/api/v1/crates/{crate}/{version}/download");
    settings.binary_deps = binary("some-remote-crate", "3.3.3");
    settings.index_url = s("/tmp/index");

    let mut facts = facts();
    facts.index_checksums.push(IndexChecksum {
        name: s("some-remote-crate"),
        version: version("3.3.3"),
        checksum: Ok(s("8a648e87a02fa31d9d9a3b7c76dbfee469402fbb4af3ae98b36c099d8a82bb18")),
    });
    let info = BinaryDependencyInfo {
        metadata: vec![binary_metadata("some-remote-crate", "3.3.3")],
        files: Table::from_items(vec![BinaryDepFiles {
            name: s("some-remote-crate"),
            files: CargoWorkspaceFiles {
                toml_path: s("/tmp/binaries/some-remote-crate-3.3.3/Cargo.toml"),
                lock_file_opt: Some(LockFile {
                    path: s("/workspace/lockfiles/Cargo.some-remote-crate-3.3.3.lock"),
                    packages: Ok(vec![LockedPackage {
                        name: s("some-remote-crate"),
                        version: s("3.3.3"),
                        checksum: None,
                    }]),
                }),
            },
        }]),
    };
    let mut planner =
        BuildPlannerImpl::new(Ok(basic_metadata()), Ok(path("/tmp/binaries")), Ok(info), facts);
    let planned_build =
        planner.plan_build(&settings, &path("/workspace"), files(), some_target()).unwrap();

    // We expect to have a crate context for the binary dependency
    let context = crate_ctx(&planned_build.crate_contexts, "some-remote-crate", Some("=3.3.3"));

    // It's also expected to have a checksum
    assert!(context.sha256.is_some());
    assert_eq!(planned_build.binary_crate_files.items().len(), 1);
    for binary in planned_build.binary_crate_files.items() {
        assert_eq!(binary.files.toml_path, "/tmp/binaries/some-remote-crate-3.3.3/Cargo.toml");
        assert!(binary.files.lock_file_opt.as_ref().unwrap().packages.is_ok());
    }
    assert_eq!(
        context.registry_url,
        "http://127.0.0.1:5000/api/v1/crates/some-remote-crate/3.3.3/download"
    );
}

#[test]
fn test_binary_dependencies_vendored_genmode() {
    let mut settings = dummy_raze_settings();
    settings.genmode = GenMode::Vendored;
    settings.binary_deps = binary("some-remote-binary", "3.3.3");

    let planned_build = plan(with_workspace_crate(basic_metadata()), &settings).unwrap();

    assert!(planned_build.workspace_aliases.is_empty());

    let wasm_version = version("0.2.68");

    // Vendored builds do not use binary dependencies and should not alter the outputs
    assert!(planned_build
        .crate_contexts
        .iter()
        .find(|ctx| ctx.pkg_name == "wasm-bindgen-cli" && ctx.pkg_version == wasm_version)
        .is_none());

    let without = {
        let mut settings = dummy_raze_settings();
        settings.genmode = GenMode::Vendored;
        plan(with_workspace_crate(basic_metadata()), &settings).unwrap()
    };
    assert_eq!(planned_build, without);
}

fn flags(flags: &[&str]) -> CrateSettings {
    let mut settings = CrateSettings::default();
    settings.additional_flags = flags.iter().map(|f| s(f)).collect();
    settings
}

fn for_versions(req: &str, settings: CrateSettings) -> VersionedCrateSettings {
    VersionedCrateSettings { req: VersionReq::parse(req).unwrap(), settings }
}

fn for_crate(name: &str, versions: Vec<VersionedCrateSettings>) -> NamedCrateSettings {
    NamedCrateSettings { name: s(name), versions: Table::from_items(versions) }
}

#[test]
fn test_semver_matching() {
    let mut settings = dummy_raze_settings();
    settings.workspace_path = s("//cargo");
    settings.genmode = GenMode::Remote;

    // All these examples are basically from the readme and "handling unusual crates"
    // They are adapted to handle the variety of semver patterns
    let mut openssl_sys = flags(&["--cfg=ossl102", "--cfg=version=102"]);
    openssl_sys.additional_deps =
        vec![s("@//third_party/openssl:crypto"), s("@//third_party/openssl:ssl")];
    let openssl = flags(&["--cfg=ossl102", "--cfg=version=102", "--cfg=ossl10x"]);
    let mut clang_sys = CrateSettings::default();
    clang_sys.gen_buildrs = Some(true);
    let mut bindgen = CrateSettings::default();
    bindgen.gen_buildrs = Some(true);
    bindgen.extra_aliased_targets = vec![s("cargo_bin_bindgen")];
    settings.crates = Table::from_items(vec![
        // Test bare versions
        for_crate("openssl-sys", vec![for_versions("0.9.24", openssl_sys)]),
        // Test `^` range
        for_crate("openssl", vec![for_versions("^0.10", openssl)]),
        // Test `*` or globs
        for_crate("clang-sys", vec![for_versions("0.21.*", clang_sys)]),
        for_crate(
            "unicase",
            vec![
                // Test `~` range
                for_versions(
                    "~2",
                    flags(&["--cfg=__unicase__iter_cmp", "--cfg=__unicase__defauler_hasher"]),
                ),
                // This should not match unicase, and should not error
                for_versions("2.6.0", flags(&["--cfg=SHOULD_NOT_MATCH"])),
            ],
        ),
        // Test `*` full glob
        for_crate("bindgen", vec![for_versions("*", bindgen)]),
        for_crate(
            "lexical-core",
            vec![
                for_versions("~0.6", flags(&["--cfg=SHOULD_NOT_MATCH"])),
                for_versions("^0.6", flags(&["--cfg=SHOULD_NOT_MATCH"])),
            ],
        ),
    ]);

    let used = [
        ("anyhow", "1.0.34"),
        ("openssl-sys", "0.9.24"),
        ("openssl", "0.10.2"),
        ("unicase", "2.1.0"),
        ("bindgen", "0.32.3"),
        ("clang-sys", "0.21.1"),
        ("lexical-core", "0.7.4"),
    ];
    let metadata = metadata(
        root_package("semver_toml", "0.1.0"),
        used.iter().map(|(name, ver)| dep(name, ver)).collect(),
        used.iter().map(|(name, ver)| (package(name, ver), vec![])).collect(),
    );
    let planned_build = plan(with_workspace_crate(metadata), &settings).unwrap();

    let crates: Vec<CrateContext> = planned_build.crate_contexts;
    let dep = |name: &str, ver_req: Option<&str>| &crate_ctx(&crates, name, ver_req).raze_settings;

    let assert_dep_not_match = |name: &str, ver_req: Option<&str>| {
        // Didnt match anything so should not have any settings
        let test_dep = dep(name, ver_req);
        assert!(test_dep.additional_flags.is_empty());
        assert!(test_dep.additional_deps.is_empty());
        assert!(test_dep.gen_buildrs.is_none());
        assert!(test_dep.extra_aliased_targets.is_empty());
        assert!(test_dep.patches.is_empty());
        assert!(test_dep.patch_cmds.is_empty());
        assert!(test_dep.patch_tool.is_none());
        assert!(test_dep.patch_cmds_win.is_empty());
        assert!(test_dep.skipped_deps.is_empty());
        assert!(test_dep.additional_build_file.is_none());
        assert!(test_dep.data_attr.is_none());
    };

    assert_dep_not_match("anyhow", None);
    assert_dep_not_match("lexical-core", Some("^0.7"));

    assert_eq! {
        dep("openssl-sys", Some("0.9.24")).additional_deps,
        vec!["@//third_party/openssl:crypto", "@//third_party/openssl:ssl"]
    };
    assert_eq! {
        dep("openssl-sys", Some("0.9.24")).additional_flags,
        vec!["--cfg=ossl102", "--cfg=version=102"]
    };

    assert_eq! {
        dep("openssl", Some("0.10.*")).additional_flags,
        vec!["--cfg=ossl102", "--cfg=version=102", "--cfg=ossl10x"],
    };

    assert!(dep("clang-sys", Some("0.21")).gen_buildrs.unwrap_or_default());

    assert_eq! {
        dep("unicase", Some("2.1")).additional_flags,
        vec! ["--cfg=__unicase__iter_cmp", "--cfg=__unicase__defauler_hasher"]
    };

    assert!(dep("bindgen", None).gen_buildrs.unwrap_or_default());
    assert_eq! {
        dep("bindgen", None).extra_aliased_targets,
        vec!["cargo_bin_bindgen"]
    };
}

#[test]
fn test_alias_bug_270() {
    let mut libsecp256k1 = package("libsecp256k1", "0.3.5");
    libsecp256k1.dependencies = vec![
        declared("arrayref", "^0.3", None),
        declared("crunchy", "^0.2", None),
        declared("crunchy", "^0.2", None),
        declared("secp256k1", "^0.17", Some("secp256k1-test")),
    ];
    let planned_build = do_planning(
        metadata(
            root_package("alias_toml", "0.1.0"),
            vec![dep("libsecp256k1", "0.3.5")],
            vec![
                (
                    libsecp256k1,
                    vec![
                        dep("arrayref", "0.3.6"),
                        dep_for(
                            "crunchy",
                            &id("crunchy", "0.2.2"),
                            vec![
                                kind(DependencyKind::Normal, None),
                                kind(DependencyKind::Build, None),
                            ],
                        ),
                    ],
                ),
                (package("arrayref", "0.3.6"), vec![]),
                (package("crunchy", "0.2.2"), vec![]),
            ],
        ),
        None,
        None,
    );

    let dep = crate_ctx(&planned_build.crate_contexts, "libsecp256k1", None);
    assert!(dep.default_deps.aliased_dependencies.is_empty());
}

/// What Cargo says of a workspace that depends on `async-global-executor` with some of its runtimes.
fn executor_metadata(tokio_versions: &[(&str, &str)]) -> Metadata {
    let mut executor = package("async-global-executor", "1.4.2");
    executor.dependencies = vec![
        declared("async-executor", "^1.3.0", None),
        declared("futures-lite", "^1.0.0", None),
        declared("tokio", "^0.2", Some("tokio02-crate")),
        declared("tokio", "^0.3", Some("tokio03-crate")),
    ];
    let mut deps = vec![dep("async-executor", "1.3.0"), dep("futures-lite", "1.11.2")];
    let mut others = vec![
        (package("async-executor", "1.3.0"), vec![]),
        (package("futures-lite", "1.11.2"), vec![]),
    ];
    for (name, ver) in tokio_versions {
        deps.push(dep_for(name, &id("tokio", ver), vec![kind(DependencyKind::Normal, None)]));
        others.push((package("tokio", ver), vec![]));
    }
    others.push((executor, deps));
    metadata(
        root_package("alias_toml", "0.1.0"),
        vec![dep("async-global-executor", "1.4.2")],
        others,
    )
}

#[test]
fn test_alias_bug_269() {
    let planned_build = do_planning(executor_metadata(&[]), None, None);

    let context = crate_ctx(&planned_build.crate_contexts, "async-global-executor", None);
    let aliases = &context.default_deps.aliased_dependencies;

    assert!(aliases.is_empty());
}

#[test]
fn test_alias_bug_269_tokio02() {
    let planned_build = do_planning(executor_metadata(&[("tokio02_crate", "0.2.22")]), None, None);

    let context = crate_ctx(&planned_build.crate_contexts, "async-global-executor", None);
    let aliases = &context.default_deps.aliased_dependencies;

    assert_eq!(
        aliases,
        &vec! { DependencyAlias {
            alias: "tokio02_crate".to_string(),
            target: "@raze_test__tokio__0_2_22//:tokio".to_string(),
        }}
    );
}

#[test]
fn test_alias_bug_269_tokio_mixed() {
    let planned_build = do_planning(
        executor_metadata(&[("tokio02_crate", "0.2.22"), ("tokio03_crate", "0.3.3")]),
        None,
        None,
    );

    let context = crate_ctx(&planned_build.crate_contexts, "async-global-executor", None);
    let aliases = &context.default_deps.aliased_dependencies;

    assert_eq!(
        aliases,
        &vec! {
            DependencyAlias {
                alias: "tokio02_crate".to_string(),
                target: "@raze_test__tokio__0_2_22//:tokio".to_string(),
            },
            DependencyAlias {
                alias: "tokio03_crate".to_string(),
                target: "@raze_test__tokio__0_3_3//:tokio".to_string(),
            }
        }
    );
}

const UNIX_OR_REDOX: &str = r#"cfg(any(unix, target_os = "redox"))"#;

fn socket2_metadata() -> Metadata {
    let on = |name: &str, ver: &str, target: &str| {
        dep_for(
            &name.replace('-', "_"),
            &id(name, ver),
            vec![kind(DependencyKind::Normal, Some(target))],
        )
    };
    metadata(
        root_package("advanced_toml", "0.1.0"),
        vec![dep("socket2", "0.3.15")],
        vec![
            (
                package("socket2", "0.3.15"),
                vec![
                    on("libc", "0.2.80", UNIX_OR_REDOX),
                    on("cfg-if", "0.1.10", UNIX_OR_REDOX),
                    on("redox_syscall", "0.1.57", r#"cfg(target_os = "redox")"#),
                    on("winapi", "0.3.9", "cfg(windows)"),
                ],
            ),
            (package("cfg-if", "0.1.10"), vec![]),
            (package("libc", "0.2.80"), vec![]),
            (package("redox_syscall", "0.1.57"), vec![]),
            (package("winapi", "0.3.9"), vec![]),
        ],
    )
}

fn buildable(target: &str, name: &str, ver: &str) -> BuildableDependency {
    BuildableDependency {
        buildable_target: s(target),
        name: s(name),
        version: version(ver),
        is_proc_macro: false,
    }
}

fn only_dependencies(dependencies: Vec<BuildableDependency>) -> CrateDependencyContext {
    CrateDependencyContext { dependencies, ..Default::default() }
}

fn unix_dependencies() -> CrateDependencyContext {
    only_dependencies(vec![
        buildable("@raze_test__cfg_if__0_1_10//:cfg_if", "cfg-if", "0.1.10"),
        buildable("@raze_test__libc__0_2_80//:libc", "libc", "0.2.80"),
    ])
}

fn windows_context() -> CrateTargetedDepContext {
    CrateTargetedDepContext {
        target: s("cfg(windows)"),
        deps: only_dependencies(vec![buildable(
            "@raze_test__winapi__0_3_9//:winapi",
            "winapi",
            "0.3.9",
        )]),
        platform_targets: vec![s("i686-pc-windows-msvc"), s("x86_64-pc-windows-msvc")],
    }
}

#[test]
fn test_plan_build_targetting() {
    let planned_build = do_planning(socket2_metadata(), None, None);
    let context = crate_ctx(&planned_build.crate_contexts, "socket2", None);

    assert_eq!(
        context.targeted_deps,
        vec! {
            CrateTargetedDepContext {
                target: s(UNIX_OR_REDOX),
                deps: unix_dependencies(),
                platform_targets: vec![
                    s("i686-apple-darwin"),
                    s("i686-unknown-linux-gnu"),
                    s("x86_64-apple-darwin"),
                    s("x86_64-unknown-linux-gnu"),
                    s("aarch64-apple-ios"),
                    s("aarch64-linux-android"),
                    s("aarch64-unknown-linux-gnu"),
                    s("arm-unknown-linux-gnueabi"),
                    s("i686-linux-android"),
                    s("i686-unknown-freebsd"),
                    s("powerpc-unknown-linux-gnu"),
                    s("s390x-unknown-linux-gnu"),
                    s("x86_64-apple-ios"),
                    s("x86_64-linux-android"),
                    s("x86_64-unknown-freebsd"),
                ],
            },
            // Redox is not supported and should have been filtered
            windows_context(),
        }
    );
}

#[test]
fn test_plan_build_legacy_targetting() {
    let platform =
        PlatformDetails::new(s("i686-pc-windows-msvc"), vec![Cfg::Name(s("windows"))]);

    let mut settings = dummy_raze_settings();
    settings.target = Some(s("i686-pc-windows-msvc"));
    let planned_build = do_planning(socket2_metadata(), Some(settings), Some(platform));
    let context = crate_ctx(&planned_build.crate_contexts, "socket2", None);

    // Legacy filtering should be filtering not windows
    assert_eq!(context.targeted_deps, vec![windows_context()]);
}

#[test]
fn test_plan_build_specified_targetting() {
    let wanted = [
        "i686-apple-darwin",
        "i686-unknown-linux-gnu",
        "x86_64-apple-darwin",
        "x86_64-unknown-linux-gnu",
        "i686-linux-android",
        "i686-unknown-freebsd",
        "x86_64-apple-ios",
        "x86_64-linux-android",
        "x86_64-unknown-freebsd",
    ];
    let mut settings = dummy_raze_settings();
    settings.targets = Some(wanted.iter().map(|t| s(t)).collect());
    let planned_build = do_planning(socket2_metadata(), Some(settings), None);
    let context = crate_ctx(&planned_build.crate_contexts, "socket2", None);

    assert_eq!(
        context.targeted_deps,
        vec! {
            CrateTargetedDepContext {
                target: s(UNIX_OR_REDOX),
                deps: unix_dependencies(),
                // Should only be for the platforms we stated
                platform_targets: wanted.iter().map(|t| s(t)).collect(),
            }
        }
    );
}

/// The contexts of a plan by name.
fn names(planned: &PlannedBuild) -> Vec<&str> {
    planned.crate_contexts.iter().map(|c| c.pkg_name.as_str()).collect()
}

fn one_dep_metadata(krate: Package, deps: Vec<NodeDep>, others: Vec<Package>) -> Metadata {
    let on_krate =
        dep_for(&krate.name.replace('-', "_"), &krate.id, vec![kind(DependencyKind::Normal, None)]);
    let mut all = vec![(krate, deps)];
    all.extend(others.into_iter().map(|p| (p, vec![])));
    metadata(root_package("root", "0.1.0"), vec![on_krate], all)
}

#[test]
fn contexts_come_in_order_of_ids() {
    let planned = plan(
        metadata(
            root_package("root", "0.1.0"),
            vec![dep("zlib", "1.0.0"), dep("abc", "2.0.0"), dep("abc", "1.0.0")],
            vec![
                (package("zlib", "1.0.0"), vec![]),
                (package("abc", "2.0.0"), vec![]),
                (package("abc", "1.0.0"), vec![]),
            ],
        ),
        &dummy_raze_settings(),
    )
    .unwrap();
    assert_eq!(names(&planned), vec!["abc", "abc", "zlib"]);
    assert_eq!(planned.crate_contexts[0].pkg_version, version("1.0.0"));
    assert_eq!(planned.workspace_context.workspace_path, "//cargo");
    assert_eq!(planned.workspace_context.gen_workspace_prefix, "raze_test");
    assert_eq!(planned.workspace_context.output_buildfile_suffix, "BUILD");
}

#[test]
fn a_context_holds_what_the_package_says() {
    let mut krate = package("my-lib", "1.2.3");
    krate.license = Some(s("MIT OR Apache-2.0"));
    krate.edition = s("2018");
    let mut metadata = one_dep_metadata(krate, vec![], vec![]);
    let resolve = metadata.resolve.take().unwrap();
    let mut nodes = resolve.nodes.clone();
    nodes[1].features = vec![s("default"), s("std")];
    metadata.resolve = Some(Resolve { nodes, root: resolve.root.clone() });
    let planned = plan(metadata, &dummy_raze_settings()).unwrap();
    let context = &planned.crate_contexts[0];
    assert_eq!(context.pkg_name, "my-lib");
    assert_eq!(context.pkg_version, version("1.2.3"));
    assert_eq!(context.edition, "2018");
    assert_eq!(context.license.license, "MIT OR Apache-2.0");
    assert_eq!(context.features, vec!["default", "std"]);
    assert_eq!(context.workspace_path_to_crate, "@raze_test__my_lib__1_2_3//");
    assert_eq!(context.expected_build_path, "remote/BUILD.my-lib-1.2.3.bazel");
    assert_eq!(context.registry_url, "https://crates.io/api/v1/crates/my-lib/1.2.3/download");
    assert_eq!(context.lib_target_name, Some(s("my_lib")));
    assert_eq!(context.sha256, None);
    assert_eq!(context.build_script_target, None);
    assert!(context.source_details.git_data.is_none());
    assert!(context.is_root_dependency);
}

#[test]
fn vendored_crates_have_paths_in_the_workspace() {
    let mut settings = dummy_raze_settings();
    settings.genmode = GenMode::Vendored;
    let mut facts = facts();
    facts.vendored_crates = vec![s("my-lib-1.2.3")];
    let metadata = one_dep_metadata(package("my-lib", "1.2.3"), vec![], vec![]);
    let mut planner = BuildPlannerImpl::new(
        Ok(metadata.clone()),
        Err(s("no directory")),
        Err(s("nothing gathered")),
        facts,
    );
    let planned =
        planner.plan_build(&settings, &path("/workspace"), files(), some_target()).unwrap();
    let context = &planned.crate_contexts[0];
    assert_eq!(context.workspace_path_to_crate, "//cargo/vendor/my-lib-1.2.3");
    assert_eq!(context.expected_build_path, "vendor/my-lib-1.2.3/BUILD");
    assert_eq!(
        planned.workspace_aliases,
        vec![DependencyAlias {
            target: s("//cargo/vendor/my-lib-1.2.3:my_lib"),
            alias: s("my_lib"),
        }]
    );

    settings.workspace_path = s("//");
    let planned =
        planner.plan_build(&settings, &path("/workspace"), files(), some_target()).unwrap();
    assert_eq!(planned.crate_contexts[0].workspace_path_to_crate, "//vendor/my-lib-1.2.3");

    match plan(metadata, &settings) {
        Err(RazeError::Planning { dependency_name_opt, message }) => {
            assert_eq!(dependency_name_opt, Some(s("my-lib")));
            assert!(message.contains("my-lib-1.2.3"));
        },
        other => panic!("{:?}", other),
    }
}

#[test]
fn an_unspecified_genmode_is_an_error_where_a_path_is_needed() {
    let mut settings = dummy_raze_settings();
    settings.genmode = GenMode::Unspecified;
    assert!(matches!(plan(basic_metadata(), &settings), Err(RazeError::Generic(_))));
}

#[test]
fn a_failed_fetch_is_an_error() {
    let settings = dummy_raze_settings();
    let run = |mut planner: BuildPlannerImpl, settings: &RazeSettings| {
        planner.plan_build(settings, &path("/workspace"), files(), some_target())
    };
    let no_metadata = BuildPlannerImpl::new(
        Err(s("cargo failed")),
        Ok(path("/tmp")),
        no_binaries(),
        facts(),
    );
    assert!(matches!(run(no_metadata, &settings), Err(RazeError::Generic(m)) if m == "cargo failed"));
    let no_tempdir = || {
        BuildPlannerImpl::new(Ok(basic_metadata()), Err(s("disk full")), no_binaries(), facts())
    };
    assert!(matches!(run(no_tempdir(), &settings), Err(RazeError::Generic(m)) if m == "disk full"));
    let no_info = BuildPlannerImpl::new(
        Ok(basic_metadata()),
        Ok(path("/tmp")),
        Err(s("download failed")),
        facts(),
    );
    assert!(matches!(run(no_info, &settings), Err(RazeError::Generic(m)) if m == "download failed"));

    let mut vendored = dummy_raze_settings();
    vendored.genmode = GenMode::Vendored;
    assert!(run(no_tempdir(), &vendored).is_ok());
}

#[test]
fn a_binary_without_a_graph_is_an_error() {
    let mut binary = binary_metadata("tool", "1.0.0");
    binary.resolve = None;
    let info = BinaryDependencyInfo { metadata: vec![binary], files: Table::from_items(vec![]) };
    let mut planner =
        BuildPlannerImpl::new(Ok(basic_metadata()), Ok(path("/tmp")), Ok(info), facts());
    let res =
        planner.plan_build(&dummy_raze_settings(), &path("/workspace"), files(), some_target());
    assert!(matches!(res, Err(RazeError::Generic(m)) if m == "Missing resolve graph"));
}

#[test]
fn a_missing_package_is_named() {
    let mut metadata = with_test_dep(basic_metadata());
    metadata.packages.pop();
    match plan(metadata, &dummy_raze_settings()) {
        Err(RazeError::Planning { dependency_name_opt: None, message }) => {
            assert_eq!(message, "Failed to find metadata for the package test_dep_id");
        },
        other => panic!("{:?}", other),
    }
}

/// The context of the root of a workspace that depends on nothing.
fn root_context() -> CrateContext {
    let metadata = basic_metadata();
    let catalog = CrateCatalog::new(&metadata).unwrap();
    let settings = dummy_raze_settings();
    CrateSubplanner {
        settings: &settings,
        platform_details: &some_target(),
        facts: &facts(),
        crate_catalog: &catalog,
        crate_catalog_entry: catalog.entry_for_package_id(&metadata.packages[0].id).unwrap(),
        source_id: &None,
        node: &metadata.resolve.as_ref().unwrap().nodes[0],
        crate_settings: None,
        sha256: &None,
    }
    .produce_context()
    .unwrap()
}

#[test]
fn there_is_exactly_one_root() {
    let mut settings = dummy_raze_settings();
    settings.binary_deps = binary("test", "0.0.1");
    settings.genmode = GenMode::Vendored;
    // The root is wanted for its binaries, so nothing is left that could be the root.
    match plan(basic_metadata(), &settings) {
        Err(RazeError::Internal(message)) => assert_eq!(
            message,
            "No root context found. Please file an issue at github.com/google/cargo-raze with details."
        ),
        other => panic!("{:?}", other),
    }

    let root = root_context();

    let info = BinaryDependencyInfo { metadata: vec![basic_metadata()], files: Table::from_items(vec![]) };
    let mut planner =
        BuildPlannerImpl::new(Ok(basic_metadata()), Ok(path("/tmp")), Ok(info), facts());
    let res =
        planner.plan_build(&dummy_raze_settings(), &path("/workspace"), files(), some_target());
    match res {
        Err(RazeError::Generic(message)) => {
            let one = root.debug_text();
            assert!(one.starts_with("CrateContext {\n    pkg_name: \"test\",\n    pkg_version: Version {\n"));
            assert_eq!(
                message,
                format!(
                    "Multiple root contexts found {} {}. Please file an issue at \
                     github.com/google/cargo-raze with details.",
                    one,
                    Some(root).debug_text()
                )
            );
        },
        other => panic!("{:?}", other),
    }
}

#[test]
fn workspace_crates_are_planned_only_for_their_binaries() {
    let ws_metadata = || {
        let mut metadata =
            one_dep_metadata(package("member", "0.1.0"), vec![], vec![package("other", "1.0.0")]);
        metadata.workspace_members.push(id("member", "0.1.0"));
        metadata
    };
    let planned = plan(ws_metadata(), &dummy_raze_settings()).unwrap();
    assert_eq!(names(&planned), vec!["other"]);

    let mut settings = dummy_raze_settings();
    settings.genmode = GenMode::Vendored;
    settings.binary_deps = binary("member", "0.1.0");
    let mut facts = facts();
    facts.vendored_crates = vec![s("other-1.0.0")];
    let mut planner =
        BuildPlannerImpl::new(Ok(ws_metadata()), Ok(path("/tmp")), no_binaries(), facts);
    let planned =
        planner.plan_build(&settings, &path("/workspace"), files(), some_target()).unwrap();
    assert_eq!(names(&planned), vec!["member", "other"]);
}

fn locked(name: &str, ver: &str, checksum: Option<&str>) -> LockedPackage {
    LockedPackage { name: s(name), version: s(ver), checksum: checksum.map(s) }
}

fn with_lock(toml: &str, packages: Result<Vec<LockedPackage>, String>) -> CargoWorkspaceFiles {
    CargoWorkspaceFiles {
        toml_path: s(toml),
        lock_file_opt: Some(LockFile { path: s("Cargo.lock"), packages }),
    }
}

fn plan_with_locks(
    main: CargoWorkspaceFiles,
    binary: Option<CargoWorkspaceFiles>,
    settings: &RazeSettings,
    facts: WorkspaceFacts,
) -> Result<PlannedBuild, RazeError> {
    let info = BinaryDependencyInfo {
        metadata: vec![],
        files: Table::from_items(
            binary.into_iter().map(|files| BinaryDepFiles { name: s("tool"), files }).collect(),
        ),
    };
    let metadata = one_dep_metadata(package("abc", "1.0.0"), vec![], vec![package("def", "2.0.0")]);
    BuildPlannerImpl::new(Ok(metadata), Ok(path("/tmp")), Ok(info), facts).plan_build(
        settings,
        &path("/workspace"),
        main,
        some_target(),
    )
}

#[test]
fn the_lock_file_of_the_workspace_counts() {
    let main = with_lock("a", Ok(vec![locked("abc", "1.0.0", Some("main")), locked("x", "?", None)]));
    let binary = with_lock(
        "b",
        Ok(vec![locked("abc", "1.0.0", Some("binary")), locked("def", "2.0.0", Some("binary"))]),
    );
    let planned =
        plan_with_locks(main, Some(binary), &dummy_raze_settings(), facts()).unwrap();
    assert_eq!(planned.crate_contexts[0].sha256, Some(s("main")));
    assert_eq!(planned.crate_contexts[1].sha256, Some(s("binary")));
}

#[test]
fn an_unusable_lock_file_is_an_error() {
    let settings = dummy_raze_settings();
    let unreadable = with_lock("a", Err(s("couldn't open Cargo.lock")));
    assert!(matches!(
        plan_with_locks(unreadable, None, &settings, facts()),
        Err(RazeError::Generic(m)) if m == "couldn't open Cargo.lock"
    ));
    let bad_version = with_lock("a", Ok(vec![locked("abc", "one", Some("sum"))]));
    assert!(matches!(
        plan_with_locks(bad_version, None, &settings, facts()),
        Err(RazeError::Version(m)) if m == "unexpected character 'o' while parsing major version number"
    ));
}

#[test]
fn the_index_counts_for_binaries() {
    let mut settings = dummy_raze_settings();
    settings.binary_deps = binary("abc", "1.0.0");
    let main = || with_lock("a", Ok(vec![locked("abc", "1.0.0", Some("main"))]));
    let answer = |checksum: Result<String, String>| {
        let mut facts = facts();
        facts.index_checksums.push(IndexChecksum {
            name: s("abc"),
            version: version("1.0.0"),
            checksum,
        });
        facts
    };
    let planned = plan_with_locks(main(), None, &settings, answer(Ok(s("index")))).unwrap();
    assert_eq!(planned.crate_contexts[0].sha256, Some(s("index")));
    assert!(matches!(
        plan_with_locks(main(), None, &settings, answer(Err(s("offline")))),
        Err(RazeError::Generic(m)) if m == "offline"
    ));
    assert!(matches!(
        plan_with_locks(main(), None, &settings, facts()),
        Err(RazeError::Generic(m)) if m == "Failed to find a checksum for abc 1.0.0 in the index"
    ));
    settings.binary_deps = binary("abc", "^1");
    assert!(matches!(
        plan_with_locks(main(), None, &settings, facts()),
        Err(RazeError::Version(m)) if m == "unexpected character '^' while parsing major version number"
    ));
    settings.genmode = GenMode::Vendored;
    let mut vendored = facts();
    vendored.vendored_crates = vec![s("abc-1.0.0"), s("def-2.0.0")];
    let planned = plan_with_locks(main(), None, &settings, vendored).unwrap();
    assert_eq!(planned.crate_contexts[0].sha256, Some(s("main")));
}

#[test]
fn settings_for_two_requirements_are_an_error() {
    let mut settings = dummy_raze_settings();
    settings.crates = Table::from_items(vec![for_crate(
        "abc",
        vec![
            for_versions(">=1.0.0, <2.0.0", flags(&[])),
            for_versions("2", flags(&[])),
            for_versions("1.0", flags(&[])),
        ],
    )]);
    let metadata = one_dep_metadata(package("abc", "1.0.0"), vec![], vec![]);
    match plan(metadata, &settings) {
        Err(RazeError::Config { field_path_opt: None, message }) => assert_eq!(
            message,
            "Multiple potential semver matches `[>=1.0.0, <2.0.0, ^1.0]` found for `abc`"
        ),
        other => panic!("{:?}", other),
    }
}

#[test]
fn dependencies_go_where_they_belong() {
    let pairs = |deps: &Vec<BuildableDependency>| -> Vec<String> {
        deps.iter().map(|d| format!("{} {}", d.name, d.is_proc_macro)).collect()
    };
    let on = |name: &str, kinds: &[DependencyKind]| {
        dep_for(name, &id(name, "1.0.0"), kinds.iter().map(|k| kind(*k, None)).collect())
    };
    let planned = plan(
        one_dep_metadata(
            package("abc", "1.0.0"),
            vec![
                on("zlib-sys", &[DependencyKind::Normal]),
                on("plain", &[DependencyKind::Normal, DependencyKind::Build]),
                on("macros", &[DependencyKind::Normal, DependencyKind::Build]),
                on("testing", &[DependencyKind::Development]),
                on("macro-sys", &[DependencyKind::Normal]),
            ],
            vec![
                package("zlib-sys", "1.0.0"),
                package("plain", "1.0.0"),
                proc_macro("macros", "1.0.0"),
                package("testing", "1.0.0"),
                proc_macro("macro-sys", "1.0.0"),
            ],
        ),
        &dummy_raze_settings(),
    )
    .unwrap();
    let deps = &planned.crate_contexts[0].default_deps;
    assert_eq!(pairs(&deps.dependencies), vec!["plain false", "zlib-sys false"]);
    assert_eq!(pairs(&deps.build_dependencies), vec!["plain false", "zlib-sys false"]);
    assert_eq!(pairs(&deps.proc_macro_dependencies), vec!["macro-sys true", "macros true"]);
    assert_eq!(pairs(&deps.build_proc_macro_dependencies), vec!["macros true"]);
    assert_eq!(pairs(&deps.dev_dependencies), vec!["testing false"]);
    assert_eq!(
        deps.dependencies[1].buildable_target,
        "@raze_test__zlib_sys__1_0_0//:zlib_sys"
    );
}

#[test]
fn versions_of_a_crate_are_listed_in_their_order() {
    // Labels tell the versions apart, so they decide; 1_10_0 comes before 1_9_0 in them.
    let planned = plan(
        one_dep_metadata(
            package("abc", "1.0.0"),
            vec![dep("dup", "1.9.0"), dep("dup", "1.10.0")],
            vec![package("dup", "1.9.0"), package("dup", "1.10.0")],
        ),
        &dummy_raze_settings(),
    )
    .unwrap();
    let deps = &planned.crate_contexts[0].default_deps.dependencies;
    assert_eq!(deps[0].version, version("1.10.0"));
    assert_eq!(deps[1].version, version("1.9.0"));
}

#[test]
fn a_dependency_of_unknown_use_is_an_error() {
    let metadata = one_dep_metadata(
        package("abc", "1.0.0"),
        vec![dep_for("odd", &id("odd", "1.0.0"), vec![kind(DependencyKind::Unknown, None)])],
        vec![package("odd", "1.0.0")],
    );
    match plan(metadata, &dummy_raze_settings()) {
        Err(RazeError::Planning { dependency_name_opt, message }) => {
            assert_eq!(dependency_name_opt, Some(s("odd")));
            assert_eq!(
                message,
                "Unhandlable dependency type Unknown on odd detected! Please file an issue at \
                 github.com/google/cargo-raze with details."
            );
        },
        other => panic!("{:?}", other),
    }
}

#[test]
fn a_package_that_is_renamed_twice_to_one_name_is_an_error() {
    let mut krate = package("abc", "1.0.0");
    krate.dependencies = vec![declared("old", "1", Some("new-name"))];
    let metadata = one_dep_metadata(
        krate,
        vec![dep_for(
            "new_name",
            &id("old", "1.0.0"),
            vec![kind(DependencyKind::Normal, None), kind(DependencyKind::Build, None)],
        )],
        vec![package("old", "1.0.0")],
    );
    match plan(metadata, &dummy_raze_settings()) {
        Err(RazeError::Planning { dependency_name_opt, message }) => {
            assert_eq!(dependency_name_opt, Some(s("old")));
            assert_eq!(message, "Duplicated renamed package new_name");
        },
        other => panic!("{:?}", other),
    }
}

#[test]
fn skipped_dependencies_are_not_listed() {
    let mut skipping = CrateSettings::default();
    skipping.skipped_deps = vec![s("unwanted-1.0.0")];
    let mut settings = dummy_raze_settings();
    settings.crates = Table::from_items(vec![for_crate("abc", vec![for_versions("*", skipping)])]);
    let planned = plan(
        one_dep_metadata(
            package("abc", "1.0.0"),
            vec![dep("unwanted", "1.0.0"), dep("unwanted", "2.0.0")],
            vec![package("unwanted", "1.0.0"), package("unwanted", "2.0.0")],
        ),
        &settings,
    )
    .unwrap();
    let deps = &planned.crate_contexts[0].default_deps.dependencies;
    assert_eq!(deps.len(), 1);
    assert_eq!(deps[0].version, version("2.0.0"));
}

fn with_build_script(mut krate: Package) -> Package {
    let script = Target {
        name: s("build-script-build"),
        kind: vec![s("custom-build")],
        crate_types: vec![s("bin")],
        src_path: written("/registry/src/abc-1.0.0/build.rs"),
        edition: s("2018"),
    };
    krate.targets.push(script);
    krate
}

#[test]
fn the_build_script_is_taken_if_it_is_wanted() {
    let metadata =
        || one_dep_metadata(with_build_script(package("abc", "1.0.0")), vec![], vec![]);
    let kinds = |planned: &PlannedBuild| -> Vec<String> {
        planned.crate_contexts[0].targets.iter().map(|t| t.kind.clone()).collect()
    };
    let mut settings = dummy_raze_settings();
    let planned = plan(metadata(), &settings).unwrap();
    assert_eq!(kinds(&planned), vec!["lib"]);
    let script = planned.crate_contexts[0].build_script_target.as_ref().unwrap();
    assert_eq!(script.path, "build.rs");
    assert_eq!(script.kind, "custom-build");

    settings.default_gen_buildrs = false;
    let planned = plan(metadata(), &settings).unwrap();
    assert_eq!(kinds(&planned), vec!["custom-build", "lib"]);
    assert!(planned.crate_contexts[0].build_script_target.is_none());

    let mut wanting = CrateSettings::default();
    wanting.gen_buildrs = Some(true);
    settings.crates = Table::from_items(vec![for_crate("abc", vec![for_versions("*", wanting)])]);
    let planned = plan(metadata(), &settings).unwrap();
    assert_eq!(kinds(&planned), vec!["lib"]);
}

#[test]
fn a_target_has_one_entry_for_each_kind() {
    let mut krate = package("abc", "1.0.0");
    krate.targets[0].kind = vec![s("staticlib"), s("cdylib")];
    krate.targets[0].src_path = written("/elsewhere/lib.rs");
    let planned = plan(one_dep_metadata(krate, vec![], vec![]), &dummy_raze_settings()).unwrap();
    let context = &planned.crate_contexts[0];
    let kinds: Vec<&str> = context.targets.iter().map(|t| t.kind.as_str()).collect();
    assert_eq!(kinds, vec!["cdylib", "staticlib"]);
    assert_eq!(context.targets[0].path, "elsewhere/lib.rs");
    assert_eq!(context.lib_target_name, None);
    // Without a library, there is no alias.
    assert!(planned.workspace_aliases.is_empty());
}

#[test]
fn a_path_that_is_not_text_is_an_error() {
    let mut krate = package("abc", "1.0.0");
    let part = |part: PathPart| WrittenPart { gap: s(""), part };
    krate.targets[0].src_path = WrittenPath {
        parts: vec![part(PathPart::Root(s("/"))), part(PathPart::Raw(vec![0xff, 0xfe]))],
        printed: s("\"/\\xFF\\xFE\""),
    };
    let res = plan(one_dep_metadata(krate, vec![], vec![]), &dummy_raze_settings());
    assert!(matches!(
        res,
        Err(RazeError::InvalidData(m)) if m
            == "\"/\\xFF\\xFE\" contains non UTF-8 characters and is not a legal path in Bazel"
    ));
}

const GIT: &str = "git+https://github.com/rust-lang/repo?branch=main#0123456789abcdef0123456789abcdef01234567";

fn git_metadata() -> Metadata {
    let mut krate = package("abc", "1.0.0");
    krate.source = Some(Source::new(GIT));
    krate.manifest_path = written("/git/checkouts/repo/crates/abc/Cargo.toml");
    krate.targets[0].src_path = written("/git/checkouts/repo/crates/abc/src/lib.rs");
    one_dep_metadata(krate, vec![], vec![])
}

fn plan_git(git_roots: Vec<FilePath>, settings: &RazeSettings) -> Result<PlannedBuild, RazeError> {
    let mut facts = facts();
    facts.git_roots = git_roots;
    facts.vendored_crates = vec![s("abc-1.0.0")];
    BuildPlannerImpl::new(Ok(git_metadata()), Ok(path("/tmp")), no_binaries(), facts).plan_build(
        settings,
        &path("/workspace"),
        files(),
        some_target(),
    )
}

#[test]
fn the_root_of_a_git_package_is_that_of_the_repository() {
    let settings = dummy_raze_settings();
    let planned = plan_git(vec![path("/"), path("/git/checkouts/repo")], &settings).unwrap();
    let context = &planned.crate_contexts[0];
    assert_eq!(context.targets[0].path, "crates/abc/src/lib.rs");
    let git = context.source_details.git_data.as_ref().unwrap();
    assert_eq!(git.remote, "https://github.com/rust-lang/repo");
    assert_eq!(git.commit, "0123456789abcdef0123456789abcdef01234567");
    assert_eq!(git.path_to_crate_root, Some(s("crates/abc")));

    let planned = plan_git(vec![path("/git/checkouts/repo/crates/abc")], &settings).unwrap();
    let context = &planned.crate_contexts[0];
    assert_eq!(context.targets[0].path, "src/lib.rs");
    assert_eq!(context.source_details.git_data.as_ref().unwrap().path_to_crate_root, None);

    match plan_git(vec![path("/git/other")], &settings) {
        Err(RazeError::Generic(message)) => assert_eq!(
            message,
            "Unable to locate git repository root for manifest at \
             \"/git/checkouts/repo/crates/abc/Cargo.toml\". Please file an issue at \
             github.com/google/cargo-raze with details."
        ),
        other => panic!("{:?}", other),
    }

    let mut vendored = dummy_raze_settings();
    vendored.genmode = GenMode::Vendored;
    let planned = plan_git(vec![], &vendored).unwrap();
    assert_eq!(planned.crate_contexts[0].targets[0].path, "src/lib.rs");
}

#[test]
fn further_targets_get_aliases() {
    let mut extra = CrateSettings::default();
    extra.extra_aliased_targets = vec![s("cargo_bin_abc"), s("a_tool")];
    let mut settings = dummy_raze_settings();
    settings.crates = Table::from_items(vec![for_crate("abc", vec![for_versions("*", extra)])]);
    let planned =
        plan(one_dep_metadata(package("abc", "1.0.0"), vec![], vec![]), &settings).unwrap();
    let pairs: Vec<(&str, &str)> = planned
        .workspace_aliases
        .iter()
        .map(|a| (a.target.as_str(), a.alias.as_str()))
        .collect();
    assert_eq!(
        pairs,
        vec![
            ("@raze_test__abc__1_0_0//:a_tool", "a_tool"),
            ("@raze_test__abc__1_0_0//:abc", "abc"),
            ("@raze_test__abc__1_0_0//:cargo_bin_abc", "cargo_bin_abc"),
        ]
    );
}

#[test]
fn without_a_table_of_targets_every_platform_is_wanted() {
    let mut facts = facts();
    facts.bazel_triples = Vec::new();
    let mut planner =
        BuildPlannerImpl::new(Ok(socket2_metadata()), Ok(path("/tmp")), no_binaries(), facts);
    let planned = planner
        .plan_build(&dummy_raze_settings(), &path("/workspace"), files(), some_target())
        .unwrap();
    // But no platform matches a target, so none is left.
    assert!(crate_ctx(&planned.crate_contexts, "socket2", None).targeted_deps.is_empty());
}

#[test]
fn a_plan_leaves_the_planner_as_it_was() {
    let mut planner = planner(with_test_dep(basic_metadata()));
    let settings = dummy_raze_settings();
    let mut run = || {
        planner.plan_build(&settings, &path("/workspace"), files(), some_target()).unwrap()
    };
    assert_eq!(run(), run());
}

#[test]
fn a_catalog_has_an_entry_for_each_package() {
    let mut metadata =
        one_dep_metadata(package("abc", "1.0.0"), vec![], vec![package("other", "1.0.0")]);
    metadata.workspace_members.push(id("other", "1.0.0"));
    let catalog = CrateCatalog::new(&metadata).unwrap();
    assert_eq!(catalog.entries().len(), 3);
    let flags = |id: &str| {
        let entry = catalog.entry_for_package_id(id).unwrap();
        (entry.is_root(), entry.is_root_dep(), entry.is_workspace_crate())
    };
    assert_eq!(flags(&root_id("root")), (true, false, true));
    assert_eq!(flags(&id("abc", "1.0.0")), (false, true, false));
    assert_eq!(flags(&id("other", "1.0.0")), (false, false, true));
    assert!(catalog.entry_for_package_id("nobody").is_none());
    metadata.resolve = None;
    assert!(CrateCatalog::new(&metadata).is_err());
}

/// Whether a build can be planned.
fn can_plan(metadata: Metadata, settings: &RazeSettings) -> bool {
    planner(metadata).is_plannable(settings, &path("/workspace"), &files(), &some_target())
}

#[test]
fn a_package_needs_no_node_of_its_own_to_be_depended_on() {
    let mut open = one_dep_metadata(package("abc", "1.0.0"), vec![dep("dep", "1.0.0")], vec![]);
    // Cargo did not tell of the dependency.
    assert!(!can_plan(open.clone(), &dummy_raze_settings()));
    open.packages.push(package("dep", "1.0.0"));
    assert!(can_plan(open.clone(), &dummy_raze_settings()));
    let planned = plan(open, &dummy_raze_settings()).unwrap();
    assert_eq!(names(&planned), vec!["abc"]);
    assert_eq!(
        planned.crate_contexts[0].default_deps.dependencies,
        vec![buildable("@raze_test__dep__1_0_0//:dep", "dep", "1.0.0")]
    );
}

#[test]
fn what_is_not_planned_need_not_be_known() {
    // A package of the workspace of which nothing is right.
    let mut member = package("member", "0.1.0");
    member.source = Some(Source::new("nonsense"));
    member.manifest_path = written("somewhere/Cargo.toml");
    let odd = kind(DependencyKind::Normal, Some("cfg(unix"));
    let member_deps = vec![
        dep("nobody", "1.0.0"),
        dep_for("other", &id("other", "1.0.0"), vec![odd]),
    ];
    let metadata = |is_member: bool| {
        let mut metadata = one_dep_metadata(
            member.clone(),
            member_deps.clone(),
            vec![package("other", "1.0.0")],
        );
        if is_member {
            metadata.workspace_members.push(id("member", "0.1.0"));
        }
        // A package without a node.
        let mut unlocked = package("unlocked", "1.0.0");
        unlocked.source = Some(Source::new("git+https://example.com/repo.git"));
        metadata.packages.push(unlocked);
        metadata
    };
    assert!(can_plan(metadata(true), &dummy_raze_settings()));
    let planned = plan(metadata(true), &dummy_raze_settings()).unwrap();
    assert_eq!(names(&planned), vec!["other"]);
    assert!(!can_plan(metadata(false), &dummy_raze_settings()));
}

#[test]
fn what_is_planned_must_be_known() {
    let settings = dummy_raze_settings();
    let mut vendored = dummy_raze_settings();
    vendored.genmode = GenMode::Vendored;
    let with = |change: fn(&mut Package), deps: Vec<NodeDep>| {
        let mut krate = package("abc", "1.0.0");
        change(&mut krate);
        one_dep_metadata(krate, deps, vec![])
    };
    assert!(can_plan(with(|_| {}, vec![]), &settings));
    assert!(!can_plan(with(|p| p.source = Some(Source::new("nonsense")), vec![]), &settings));
    let unlocked = |p: &mut Package| {
        p.source = Some(Source::new("git+https://example.com/repo.git"));
    };
    // The repository is found, and the revision is not known.
    let mut found = facts();
    found.git_roots = vec![path("/registry")];
    let mut in_repository = BuildPlannerImpl::new(
        Ok(with(unlocked, vec![])),
        Ok(path("/tmp")),
        no_binaries(),
        found,
    );
    assert!(!in_repository.is_plannable(&settings, &path("/workspace"), &files(), &None));
    assert!(in_repository
        .plan_build_if_known(&settings, &path("/workspace"), files(), None)
        .is_none());
    // Where the repository is not found, that is told.
    assert!(can_plan(with(unlocked, vec![]), &settings));
    assert!(matches!(plan(with(unlocked, vec![]), &settings), Err(RazeError::Generic(_))));
    let relative = |p: &mut Package| p.manifest_path = written("abc/Cargo.toml");
    assert!(!can_plan(with(relative, vec![]), &settings));
    let root = |p: &mut Package| p.manifest_path = written("/");
    assert!(!can_plan(with(root, vec![]), &settings));
    // For one target, a platform must be readable, unless the dependency is left out.
    let odd = dep_for(
        "other",
        &id("other", "1.0.0"),
        vec![kind(DependencyKind::Normal, Some("cfg(unix"))],
    );
    let mut skipping = CrateSettings::default();
    skipping.skipped_deps = vec![s("other-1.0.0")];
    let mut one = dummy_raze_settings();
    one.target = Some(s("some_target_triple"));
    let mut skips = one.clone();
    skips.crates = Table::from_items(vec![for_crate("abc", vec![for_versions("*", skipping)])]);
    let mut skipped = with(|_| {}, vec![odd]);
    skipped.packages.push(package("other", "1.0.0"));
    assert!(!can_plan(skipped.clone(), &one));
    assert!(can_plan(skipped.clone(), &skips));
    assert_eq!(names(&plan(skipped.clone(), &skips).unwrap()), vec!["abc"]);
    // Otherwise a platform that cannot be read matches no target.
    assert!(can_plan(skipped.clone(), &settings));
    let planned = plan(skipped, &settings).unwrap();
    assert_eq!(names(&planned), vec!["abc"]);
    assert_eq!(planned.crate_contexts[0].default_deps, CrateDependencyContext::default());
    assert!(planned.crate_contexts[0].targeted_deps.is_empty());

    // Nothing is planned behind a crate that cannot be planned.
    let unknown = dep_for("abd", &id("abd", "1.0.0"), vec![kind(DependencyKind::Unknown, None)]);
    let mut hidden = package("abd", "1.0.0");
    hidden.manifest_path = written("abd/Cargo.toml");
    let behind = |dep: NodeDep| {
        one_dep_metadata(package("abc", "1.0.0"), vec![dep], vec![hidden.clone()])
    };
    assert!(!can_plan(behind(dep("abd", "1.0.0")), &settings));
    assert!(can_plan(behind(unknown.clone()), &settings));
    match planner(behind(unknown)).plan_build_if_known(
        &settings,
        &path("/workspace"),
        files(),
        some_target(),
    ) {
        Some(Err(RazeError::Planning { dependency_name_opt, .. })) => {
            assert_eq!(dependency_name_opt, Some(s("abd")));
        },
        other => panic!("{:?}", other),
    }

    // Nothing is planned where a check fails before: the sources are not there.
    assert!(can_plan(with(relative, vec![]), &vendored));
    assert!(matches!(
        plan(with(relative, vec![]), &vendored),
        Err(RazeError::Planning { dependency_name_opt: Some(name), .. }) if name == "abc"
    ));

    // A manifest in no directory is looked for in a Git repository, and not found.
    let git_root = |p: &mut Package| {
        p.source = Some(Source::new(GIT));
        p.manifest_path = written("/");
    };
    assert!(can_plan(with(git_root, vec![]), &settings));
    assert!(matches!(
        plan(with(git_root, vec![]), &settings),
        Err(RazeError::Generic(m)) if m.starts_with(
            "Unable to locate git repository root for manifest at \"/\". Please"
        )
    ));
}

#[test]
fn settings_that_no_package_uses_do_not_alter_the_plan() {
    let metadata = || one_dep_metadata(package("abc", "1.0.0"), vec![], vec![]);
    let mut settings = dummy_raze_settings();
    let used = || for_crate("abc", vec![for_versions("*", flags(&["--used"]))]);
    let unused = |name: &str| for_crate(name, vec![for_versions("*", flags(&["--unused"]))]);
    settings.crates = Table::from_items(vec![used()]);
    let planned = plan(metadata(), &settings).unwrap();
    assert_eq!(planned.crate_contexts[0].raze_settings.additional_flags, vec!["--used"]);
    let unused_settings = |planner: BuildPlannerImpl, settings: &RazeSettings| {
        planner.unused_settings(settings, &path("/workspace"), &files(), &some_target())
    };
    assert!(unused_settings(planner(metadata()), &settings).is_empty());

    settings.crates = Table::from_items(vec![unused("abd"), used(), unused("tool")]);
    assert_eq!(plan(metadata(), &settings).unwrap(), planned);
    assert_eq!(unused_settings(planner(metadata()), &settings), vec!["abd", "tool"]);

    // The packages of a crate that is wanted for its binaries count where Bazel fetches them.
    let with_tool = || {
        let info = BinaryDependencyInfo {
            metadata: vec![binary_metadata("tool", "1.0.0")],
            files: Table::from_items(vec![]),
        };
        let mut facts = facts();
        facts.vendored_crates = vec![s("abc-1.0.0")];
        BuildPlannerImpl::new(Ok(metadata()), Ok(path("/tmp")), Ok(info), facts)
    };
    assert_eq!(unused_settings(with_tool(), &settings), vec!["abd"]);
    settings.genmode = GenMode::Vendored;
    assert_eq!(unused_settings(with_tool(), &settings), vec!["abd", "tool"]);
    // Nothing is said where a check fails.
    assert!(unused_settings(planner(metadata()), &settings).is_empty());
}

#[test]
fn the_path_to_a_crate_keeps_its_separators() {
    let gaps = ["", "", "/", "//", "/./", "/"];
    let names = path("/git/repo/crates/abc/Cargo.toml").parts;
    let mut metadata = git_metadata();
    metadata.packages[1].manifest_path = WrittenPath {
        parts: names
            .into_iter()
            .zip(gaps.iter())
            .map(|(part, gap)| WrittenPart { gap: s(gap), part })
            .collect(),
        printed: s("\"/git/repo//crates/./abc/Cargo.toml/\""),
    };
    let plan_in = |root: &str| {
        let mut facts = facts();
        facts.git_roots = vec![path(root)];
        BuildPlannerImpl::new(Ok(metadata.clone()), Ok(path("/tmp")), no_binaries(), facts)
            .plan_build(&dummy_raze_settings(), &path("/workspace"), files(), some_target())
    };
    let to_root = |root: &str| {
        let details = &plan_in(root).unwrap().crate_contexts[0].source_details;
        details.git_data.as_ref().unwrap().path_to_crate_root.clone()
    };
    assert_eq!(to_root("/git/repo"), Some(s("crates/./abc")));
    assert_eq!(to_root("/git"), Some(s("repo//crates/./abc")));
    assert_eq!(to_root("/"), Some(s("git/repo//crates/./abc")));
    assert!(matches!(
        plan_in("/elsewhere"),
        Err(RazeError::Generic(m)) if m.contains(" \"/git/repo//crates/./abc/Cargo.toml/\". ")
    ));
}

#[test]
fn dependencies_that_have_one_label_are_listed_by_name_and_version() {
    // Dots and hyphens are alike in labels.
    let planned = plan(
        one_dep_metadata(
            package("abc", "1.0.0"),
            vec![dep("d", "1.0.0-b-1"), dep("d", "1.0.0-b.1"), dep("d", "1.0.0-a.1")],
            vec![package("d", "1.0.0-b.1"), package("d", "1.0.0-b-1"), package("d", "1.0.0-a.1")],
        ),
        &dummy_raze_settings(),
    )
    .unwrap();
    let deps = &planned.crate_contexts[0].default_deps.dependencies;
    let listed: Vec<String> = deps.iter().map(|d| d.version.to_text()).collect();
    assert_eq!(deps[1].buildable_target, deps[2].buildable_target);
    assert_eq!(listed, vec!["1.0.0-a.1", "1.0.0-b.1", "1.0.0-b-1"]);
}
