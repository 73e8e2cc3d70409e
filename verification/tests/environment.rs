use rot::cli::{AuditCli, CargoSelection, OutputFormat};
use rot::compiler::environment::{
    cargo_arguments, cargo_config, cargo_config_json, cargo_environment,
    cargo_target_rustflags_configured, config_arguments, config_at, configured_build_rustflags,
    configured_target, contains_key, custom_cfg_environment_is_safe, disable_ordinary_wrapper,
    effective_target, field, ordinary_wrapper_configured, reject_compiler_overrides,
    reject_configured, selected_compiler, toolchain_arguments, unstable_environment, ArtifactPaths,
    ConfigValue, EnvironmentVariable,
};
use rot::compiler::profile::metadata_arguments;
use rot::compiler::support::{
    release_version, validate, SupportManifest, SupportedToolchain,
};
use rot::protocol::CompilerIdentity;

fn texts(items: &[&str]) -> Vec<String> {
    items.iter().map(|item| item.to_string()).collect()
}

fn text(value: &str) -> ConfigValue {
    ConfigValue::Text(value.to_owned())
}

fn options() -> AuditCli {
    AuditCli {
        cargo: CargoSelection {
            paths: Vec::new(),
            features: Vec::new(),
            all_features: false,
            no_default_features: false,
            target: None,
            cfg: Vec::new(),
        },
        format: OutputFormat::Table,
        baseline: None,
        explain: None,
        explain_at: None,
        driver: "driver".to_owned(),
        toolchain: "1.98.0".to_owned(),
        locked: false,
        offline: false,
        scratch_dir: None,
    }
}

#[test]
fn parses_verbose_rustc_fields() {
    let output = "rustc 1.100.0-nightly\ncommit-hash: abc\nhost: target\n";
    assert_eq!(field(output, "commit-hash").as_deref(), Some("abc"));
    assert_eq!(field(output, "host").as_deref(), Some("target"));
    assert_eq!(field(output, "missing"), None);
}

#[test]
fn accepts_one_configured_target_and_rejects_multi_target_profiles() {
    assert_eq!(
        configured_target(&ConfigValue::List(vec![text("target")])).unwrap(),
        "target"
    );
    assert!(configured_target(&ConfigValue::List(vec![text("first"), text("second")]))
        .unwrap_err()
        .contains("requires one"));
}

#[test]
fn targets_that_are_no_names_are_refused() {
    assert_eq!(configured_target(&text("target")).unwrap(), "target");
    assert_eq!(
        configured_target(&text("")).unwrap_err(),
        "Cargo build.target is neither a target string nor an array"
    );
    assert_eq!(
        configured_target(&ConfigValue::List(vec![ConfigValue::Null])).unwrap_err(),
        "Cargo build.target contains an empty or non-string target"
    );
    assert_eq!(
        configured_target(&ConfigValue::List(Vec::new())).unwrap_err(),
        "visibility audit requires one effective Cargo build.target, found 0"
    );
}

#[test]
fn the_requested_target_comes_before_the_configured_one_and_the_host() {
    let verbose = "rustc 1.98.0\nhost: machine\n";
    let configured = Some(text("configured"));
    assert_eq!(
        effective_target(&Some("requested".to_owned()), &configured, verbose).unwrap(),
        "requested"
    );
    assert_eq!(effective_target(&None, &configured, verbose).unwrap(), "configured");
    assert_eq!(effective_target(&None, &None, verbose).unwrap(), "machine");
    assert_eq!(effective_target(&None, &None, "").unwrap_err(), "rustc -vV omitted host");
}

#[test]
fn ambient_bootstrap_is_removed_from_the_project_cargo_command() {
    let paths = ArtifactPaths {
        target: "run/target".to_owned(),
        build: "run/build".to_owned(),
        events: "run/events".to_owned(),
        run_id: "run".to_owned(),
    };
    let settings = cargo_environment("driver", &paths, "manifest");
    let bootstrap = settings.iter().find(|setting| setting.name == "RUSTC_BOOTSTRAP").unwrap();
    assert_eq!(bootstrap.value, None);
    let events = settings
        .iter()
        .find(|setting| setting.name == "ROT_COMPILER_SIDECAR_DIR")
        .unwrap();
    assert_eq!(events.value.as_deref(), Some("run/events"));

    let preflight = unstable_environment();
    let bootstrap = preflight.iter().find(|setting| setting.name == "RUSTC_BOOTSTRAP").unwrap();
    assert_eq!(bootstrap.value.as_deref(), Some("1"));

    let disabled = disable_ordinary_wrapper();
    assert_eq!(disabled[0].name, "RUSTC_WRAPPER");
    assert_eq!(disabled[0].value.as_deref(), Some(""));
}

#[test]
fn metadata_preflight_uses_compiler_profile_controls() {
    let mut cli = options();
    cli.cargo.features = texts(&["member/selected"]);
    cli.cargo.no_default_features = true;
    cli.locked = true;
    cli.offline = true;
    let mut arguments = toolchain_arguments("nightly", "cargo");
    arguments.extend(metadata_arguments(&cli, "aarch64-unknown-linux-gnu", false));
    assert_eq!(
        arguments,
        [
            "run",
            "nightly",
            "cargo",
            "metadata",
            "--format-version",
            "1",
            "--locked",
            "--offline",
            "--no-default-features",
            "--features",
            "member/selected",
            "--filter-platform",
            "aarch64-unknown-linux-gnu",
        ]
    );
    assert_eq!(metadata_arguments(&options(), "t", true)[3], "--no-deps");
    assert_eq!(config_arguments("build.rustc")[4], "build.rustc");
}

#[test]
fn conditions_follow_the_configured_flags() {
    let mut cli = options();
    cli.cargo.all_features = true;
    cli.cargo.cfg = texts(&["mode=\"one\"", "fast"]);
    let build = Some(text("-C debuginfo=0\t-Dwarnings"));
    let arguments = cargo_arguments(&cli, "target", &None, &build).unwrap();
    assert_eq!(arguments[0], "check");
    assert!(arguments.contains(&"--all-features".to_owned()));
    assert_eq!(arguments[arguments.len() - 2], "--config");
    assert_eq!(
        arguments[arguments.len() - 1],
        "build.rustflags=[\"-C\",\"debuginfo=0\",\"-Dwarnings\",\"--cfg\",\"mode=\\\"one\\\"\",\"--cfg\",\"fast\"]"
    );

    let target = Some(ConfigValue::Table(vec![(
        "x86_64".to_owned(),
        ConfigValue::Table(vec![("rustflags".to_owned(), ConfigValue::List(Vec::new()))]),
    )]));
    assert_eq!(
        cargo_arguments(&cli, "target", &target, &build).unwrap_err(),
        "custom --cfg cannot be composed safely with Cargo target-specific rustflags"
    );
    let none = cargo_arguments(&options(), "target", &target, &build).unwrap();
    assert!(!none.contains(&"--config".to_owned()));
}

#[test]
fn configured_flags_are_words_or_texts() {
    assert_eq!(configured_build_rustflags(&None).unwrap(), texts(&[]));
    assert_eq!(configured_build_rustflags(&Some(text(" a  b\n"))).unwrap(), ["a", "b"]);
    assert_eq!(
        configured_build_rustflags(&Some(ConfigValue::List(vec![text("a b"), text("c")]))).unwrap(),
        ["a b", "c"]
    );
    assert_eq!(
        configured_build_rustflags(&Some(ConfigValue::List(vec![text("a"), ConfigValue::Bool(true)])))
            .unwrap_err(),
        "Cargo build.rustflags contains a non-string value"
    );
    assert_eq!(
        configured_build_rustflags(&Some(ConfigValue::Null)).unwrap_err(),
        "Cargo build.rustflags is neither a string nor an array"
    );
}

#[test]
fn configuration_is_read_from_json() {
    let stdout = b"{\"build\":{\"target\":[\"one\"],\"jobs\":4}}".to_vec();
    let value = cargo_config_json(true, &stdout, &Vec::new(), "build.target").unwrap();
    assert_eq!(value, Some(ConfigValue::List(vec![text("one")])));
    assert_eq!(
        cargo_config_json(true, &stdout, &Vec::new(), "build.jobs").unwrap(),
        Some(ConfigValue::Number("4".to_owned()))
    );
    assert_eq!(
        cargo_config_json(true, &stdout, &Vec::new(), "build.rustc").unwrap_err(),
        "Cargo config JSON omitted build.rustc"
    );
    assert_eq!(
        cargo_config_json(true, &b"{".to_vec(), &Vec::new(), "build.rustc").unwrap_err(),
        "Cargo config JSON was malformed"
    );
    assert_eq!(
        cargo_config_json(
            false,
            &Vec::new(),
            &b"error: config value `build.rustc` is not set\n".to_vec(),
            "build.rustc"
        )
        .unwrap(),
        None
    );
    assert_eq!(
        cargo_config_json(false, &Vec::new(), &b" bad \xff\n".to_vec(), "build.rustc").unwrap_err(),
        "cannot query Cargo configuration build.rustc: bad \u{fffd}"
    );
}

#[test]
fn texts_of_the_configuration_are_found_by_their_names() {
    let table = ConfigValue::Table(vec![
        ("a".to_owned(), ConfigValue::Table(vec![("b".to_owned(), text("c"))])),
        ("d".to_owned(), ConfigValue::List(vec![ConfigValue::Table(vec![(
            "e".to_owned(),
            ConfigValue::Null,
        )])])),
    ]);
    assert!(contains_key(&table, "b"));
    assert!(contains_key(&table, "e"));
    assert!(!contains_key(&table, "c"));
    assert!(!cargo_target_rustflags_configured(&None));
    assert_eq!(config_at(table, "a.b").unwrap(), text("c"));
    assert_eq!(
        cargo_config(&Some(text("value")), "key").unwrap().as_deref(),
        Some("value")
    );
    assert_eq!(cargo_config(&Some(text("")), "key").unwrap(), None);
    assert_eq!(cargo_config(&None, "key").unwrap(), None);
    assert_eq!(
        cargo_config(&Some(ConfigValue::Null), "key").unwrap_err(),
        "Cargo config key is not a string"
    );
}

fn variable(name: &str, empty: bool) -> EnvironmentVariable {
    EnvironmentVariable { name: name.to_owned(), empty }
}

#[test]
fn other_compilers_and_wrappers_are_refused() {
    assert_eq!(reject_compiler_overrides(&Vec::new()), Ok(()));
    assert_eq!(
        reject_compiler_overrides(&vec![variable("RUSTC", true)]),
        Err("visibility audit rejects RUSTC; it must use the exact selected rustc".to_owned())
    );
    assert_eq!(
        reject_compiler_overrides(&vec![variable("RUSTC_WORKSPACE_WRAPPER", true)]),
        Ok(())
    );
    assert_eq!(
        reject_compiler_overrides(&vec![variable("CARGO_BUILD_RUSTC_WORKSPACE_WRAPPER", false)]),
        Err("visibility audit cannot compose the existing workspace wrapper in CARGO_BUILD_RUSTC_WORKSPACE_WRAPPER".to_owned())
    );
    assert_eq!(
        reject_configured("build.rustc", &Some("my\"rustc".to_owned())),
        Err("visibility audit rejects Cargo build.rustc=\"my\\\"rustc\"".to_owned())
    );
    assert_eq!(reject_configured("build.rustc", &None), Ok(()));

    assert!(ordinary_wrapper_configured(&vec![variable("RUSTC_WRAPPER", false)], &None));
    assert!(!ordinary_wrapper_configured(&vec![variable("RUSTC_WRAPPER", true)], &None));
    assert!(ordinary_wrapper_configured(&Vec::new(), &Some("sccache".to_owned())));
}

#[test]
fn flags_in_the_environment_are_not_safe() {
    assert!(custom_cfg_environment_is_safe(&vec![variable("PATH", false)]));
    assert!(!custom_cfg_environment_is_safe(&vec![variable("RUSTFLAGS", true)]));
    assert!(!custom_cfg_environment_is_safe(&vec![variable("CARGO_TARGET_X_RUSTFLAGS", false)]));
    assert!(custom_cfg_environment_is_safe(&vec![variable("CARGO_TARGET_X_RUNNER", false)]));
}

fn toolchain(release: &str, date: Option<&str>) -> SupportedToolchain {
    SupportedToolchain {
        kind: if date.is_some() { "stable" } else { "development" }.to_owned(),
        release: release.to_owned(),
        release_date: date.map(str::to_owned),
        commit_hash: "0123456789abcdef0123456789abcdef01234567".to_owned(),
        commit_date: "2026-01-01".to_owned(),
    }
}

fn manifest() -> SupportManifest {
    SupportManifest {
        verified_on: "2026-08-29".to_owned(),
        window_start: "2025-08-29".to_owned(),
        window_days: 365,
        verified_host: "aarch64-apple-darwin".to_owned(),
        toolchains: vec![
            toolchain("1.90.0", Some("2025-09-18")),
            toolchain("1.99.0", Some("2026-08-20")),
            toolchain("1.100.0-nightly", None),
        ],
    }
}

#[test]
fn release_order_is_numeric_across_three_digit_minors() {
    assert!(release_version("1.99.0").unwrap() < release_version("1.100.0").unwrap());
}

#[test]
fn releases_have_three_numbers() {
    assert_eq!(release_version("1.100.0-nightly"), Ok((1, 100, 0)));
    for release in ["1.100", "1.100.0.1", "1.x.0", "", "1.4294967296.0"] {
        assert_eq!(
            release_version(release),
            Err(format!("rustc support manifest has invalid release {release}"))
        );
    }
}

#[test]
fn exact_identity_and_host_are_required() {
    let manifest = manifest();
    for toolchain in &manifest.toolchains {
        let compiler = CompilerIdentity {
            release: toolchain.release.clone(),
            commit_hash: toolchain.commit_hash.clone(),
            commit_date: toolchain.commit_date.clone(),
            host: manifest.verified_host.clone(),
        };
        validate(&manifest, &compiler).unwrap();
    }

    let toolchain = &manifest.toolchains[1];
    let compiler = CompilerIdentity {
        release: toolchain.release.clone(),
        commit_hash: toolchain.commit_hash.clone(),
        commit_date: toolchain.commit_date.clone(),
        host: manifest.verified_host.clone(),
    };
    let mut wrong_host = compiler;
    wrong_host.host = "x86_64-unknown-linux-gnu".to_owned();
    assert!(validate(&manifest, &wrong_host).is_err());
}

#[test]
fn a_list_of_toolchains_that_is_wrong_is_refused() {
    let complaint = |change: &dyn Fn(&mut SupportManifest)| {
        let mut changed = manifest();
        change(&mut changed);
        changed.validate().unwrap_err()
    };
    assert_eq!(manifest().validate(), Ok(()));
    assert_eq!(
        complaint(&|list| list.window_days = 364),
        "rustc support manifest has an invalid verification window"
    );
    assert_eq!(
        complaint(&|list| list.window_start = "2026-08-30".to_owned()),
        "rustc support manifest has an invalid verification window"
    );
    assert_eq!(
        complaint(&|list| list.verified_host.clear()),
        "rustc support manifest has no verified host"
    );
    assert_eq!(
        complaint(&|list| list.toolchains[1].release = "1.90.0".to_owned()),
        "rustc support manifest repeats release 1.90.0"
    );
    assert_eq!(
        complaint(&|list| list.toolchains[0].commit_hash = "g".repeat(40)),
        "rustc support manifest has an invalid identity for 1.90.0"
    );
    assert_eq!(
        complaint(&|list| list.toolchains.swap(0, 1)),
        "rustc support manifest stable releases are not numerically sorted at 1.90.0"
    );
    assert_eq!(
        complaint(&|list| list.toolchains[0].release_date = Some("2025-08-28".to_owned())),
        "rustc support manifest has invalid release provenance for 1.90.0"
    );
}

#[test]
fn a_compiler_is_known_by_what_it_says() {
    let verbose = "rustc 1.99.0 (0123 2026-01-01)\nrelease: 1.99.0\ncommit-hash: 0123456789abcdef0123456789abcdef01234567\ncommit-date: 2026-01-01\r\nhost: aarch64-apple-darwin\n";
    let compiler = selected_compiler(&manifest(), verbose).unwrap();
    assert_eq!(compiler.linked_version, "1.99.0 (0123 2026-01-01)");
    assert_eq!(compiler.identity.commit_date, "2026-01-01");
    assert_eq!(
        selected_compiler(&manifest(), "").unwrap_err(),
        "rustc -Vv omitted its version header"
    );
    assert_eq!(
        selected_compiler(&manifest(), "rustc 1.99.0\nrelease: 1.99.0\n").unwrap_err(),
        "rustc -Vv omitted commit-hash"
    );
    assert_eq!(
        selected_compiler(&manifest(), &verbose.replace("aarch64-apple-darwin", "other"))
            .unwrap_err(),
        "rustc 1.99.0 (0123456789abcdef0123456789abcdef01234567 for other) is outside rot-audit's exact compatibility set verified on 2026-08-29; supported compiler releases: 1.90.0, 1.99.0, 1.100.0-nightly"
    );
}
