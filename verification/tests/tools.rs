use clippy_lintcheck::driver::{
    DriverExit, DriverInfo, DriverMode, driver_command, driver_exit, is_diagnostic_line, perf_data_path, writes_diagnostics,
};
use clippy_lintcheck::input::first_with_unused_keys;
use clippy_lintcheck::install::{InstallExit, install_build_args, install_exit};
use clippy_lintcheck::lintcheck::{
    IoErrorKind, ManifestEdits, PackageInfo, build_clippy_args, cargo_check, clippy_args, clippy_driver_path,
    find_package, join_strings, manifest_edits, metadata_options, next_run_number, package_arg, perf_run_number,
    recursive_packages, workspace_layout, workspace_path, ResolveNode, assumed_edition, sources_package,
    specified_packages, workspace_resolver,
};
use clippy_lintcheck::recursive::{
    DiagnosticInfo, SeenDrivers, collect_warnings, dependency_warnings, docs_rs_base_url, driver_mode_for, frame_line,
};
use clippy_lintcheck::rustc_wrapper::{
    WrapperCommand, args_from_rustc, cap_lints_check, cap_lints_to_warn, decide_ignored, glob_to_regex, is_ignored,
    wrapper_command,
};
use clippy_lintcheck::{RecursiveOptions, ok_or_not_found};

fn strings(items: &[&str]) -> Vec<String> {
    items.iter().map(|s| s.to_string()).collect()
}

fn pkg(name: &str, version: &str) -> PackageInfo {
    PackageInfo { name: name.to_string(), version: version.to_string() }
}

#[test]
fn missing_file_is_tolerated() {
    assert!(ok_or_not_found::<()>(Ok(())));
    assert!(ok_or_not_found::<u8>(Err(IoErrorKind::NotFound)));
    assert!(!ok_or_not_found::<u8>(Err(IoErrorKind::Other)));
}

#[test]
fn wrapper_args_start_at_rustc() {
    let args = strings(&["lintcheck-driver", "--x", "rustc", "--edition=2021", "src/lib.rs"]);
    assert_eq!(args_from_rustc(&args), strings(&["rustc", "--edition=2021", "src/lib.rs"]));
    assert_eq!(args_from_rustc(&strings(&["a", "b"])), Vec::<String>::new());
}

#[test]
fn cap_lints_are_raised_to_warn() {
    let args = strings(&["rustc", "--cap-lints=allow", "--cap-lints", "allow", "x.rs"]);
    assert_eq!(
        cap_lints_to_warn(&args),
        strings(&["rustc", "--cap-lints=warn", "--cap-lints", "warn", "x.rs"])
    );
}

#[test]
fn cap_lints_rewrite_is_idempotent() {
    let args = strings(&["rustc", "--cap-lints", "--cap-lints", "--cap-lints=allow", "a"]);
    let once = cap_lints_to_warn(&args);
    assert_eq!(once, strings(&["rustc", "--cap-lints", "warn", "--cap-lints=warn", "a"]));
    assert_eq!(cap_lints_to_warn(&once), once);
    assert_eq!(once.len(), args.len());
}

#[test]
fn trailing_cap_lints_flag_is_incomplete() {
    assert!(cap_lints_check(&strings(&["rustc", "--cap-lints", "allow"])));
    assert!(!cap_lints_check(&strings(&["rustc", "--cap-lints"])));
    assert!(wrapper_command(false, &strings(&["rustc", "--cap-lints"])).is_none());
}

#[test]
fn glob_becomes_anchored_regex() {
    assert_eq!(glob_to_regex("serde*"), "^serde.*$");
    assert_eq!(glob_to_regex("*-sys*"), "^.*-sys.*$");
    assert_eq!(glob_to_regex(""), "^$");
}

#[test]
fn package_names_are_matched_against_globs() {
    let ignore = strings(&["tokio", "serde*"]);
    assert_eq!(is_ignored(Some("serde_json"), &ignore), Ok(true));
    assert_eq!(is_ignored(Some("tokio"), &ignore), Ok(true));
    assert_eq!(is_ignored(Some("tokio-util"), &ignore), Ok(false));
    assert_eq!(is_ignored(None, &ignore), Ok(true));
}

#[test]
fn invalid_glob_is_an_error_unless_an_earlier_one_matched() {
    let ignore = strings(&["ab", "(", "x*"]);
    assert_eq!(is_ignored(Some("xyz"), &ignore), Err(1));
    assert_eq!(is_ignored(Some("ab"), &ignore), Ok(true));
}

#[test]
fn first_deciding_result_wins() {
    assert_eq!(decide_ignored(&vec![Some(false), Some(true), None]), Ok(true));
    assert_eq!(decide_ignored(&vec![Some(false), None, Some(true)]), Err(1));
    assert_eq!(decide_ignored(&vec![Some(false)]), Ok(false));
    assert_eq!(decide_ignored(&Vec::new()), Ok(false));
}

#[test]
fn ignored_crate_runs_plain_rustc() {
    let args = strings(&["rustc", "--crate-name", "foo", "--cap-lints=allow"]);
    match wrapper_command(true, &args) {
        Some(WrapperCommand::Rustc { args }) => {
            assert_eq!(args, strings(&["--crate-name", "foo", "--cap-lints=allow"]))
        },
        _ => panic!("expected rustc"),
    }
    match wrapper_command(false, &args) {
        Some(WrapperCommand::ClippyDriver { args }) => {
            assert_eq!(args, strings(&["rustc", "--crate-name", "foo", "--cap-lints=warn"]))
        },
        _ => panic!("expected the clippy driver"),
    }
}

#[test]
fn perf_data_path_names_the_crate_when_it_differs() {
    assert_eq!(perf_data_path("/perf/3", "serde", "serde"), "/perf/3/serde.data");
    assert_eq!(perf_data_path("/perf/3", "serde", "build_script_build"), "/perf/3/serde.build_script_build.data");
}

fn info() -> DriverInfo {
    DriverInfo { package_name: "regex".to_string(), crate_name: "regex".to_string(), version: "1.10.0".to_string() }
}

#[test]
fn driver_command_per_mode() {
    assert!(driver_command(DriverMode::Rustc, "/bin/clippy-driver", &info(), None, None).is_none());
    let clippy = driver_command(DriverMode::Clippy, "/bin/clippy-driver", &info(), None, None).unwrap();
    assert_eq!(clippy.program, "/bin/clippy-driver");
    assert!(clippy.args.is_empty());
    let perf = driver_command(DriverMode::Perf, "/bin/clippy-driver", &info(), Some("/p"), Some("regex")).unwrap();
    assert_eq!(perf.program, "perf");
    assert_eq!(
        perf.args,
        strings(&[
            "record",
            "-e",
            "instructions",
            "-g",
            "--quiet",
            "--compression-level=22",
            "--freq=3000",
            "-o",
            "/p/regex.data",
            "--",
            "/bin/clippy-driver",
        ])
    );
}

#[test]
fn diagnostic_lines_are_recognised() {
    assert!(is_diagnostic_line(b"{\"$message_type\":\"diagnostic\",\"x\":1}\n"));
    assert!(is_diagnostic_line(b"{\"$message_type\":\"diagnostic\"}"));
    assert!(!is_diagnostic_line(b"warning: plain\n"));
    assert!(!is_diagnostic_line(b"{\"$message_type\":\"artifact\"}\n"));
    assert!(!is_diagnostic_line(b""));
}

#[test]
fn driver_exit_codes() {
    assert_eq!(driver_exit(Some(0)), DriverExit::Success);
    assert_eq!(driver_exit(Some(101)), DriverExit::Failure { code: 101 });
    assert_eq!(driver_exit(None), DriverExit::Killed);
}

#[test]
fn server_mode_and_framing() {
    let mut seen = SeenDrivers::new();
    assert_eq!(driver_mode_for(&mut seen, info(), true), DriverMode::Perf);
    let mut other = SeenDrivers::new();
    assert_eq!(driver_mode_for(&mut other, info(), false), DriverMode::Clippy);
    assert_eq!(frame_line(b"\"Clippy\"".to_vec()), b"\"Clippy\"\n".to_vec());
}

#[test]
fn docs_rs_link_template() {
    assert_eq!(docs_rs_base_url(&info()), "https://docs.rs/crate/regex/1.10.0/source/src/{file}#{line}");
}

#[test]
fn recursive_options_behave_as_a_set() {
    let mut options = RecursiveOptions::from_names(strings(&["a", "b", "a"]));
    assert!(options.contains("a"));
    assert!(options.contains("b"));
    assert!(!options.contains("c"));
    assert!(options.insert("c".to_string()));
    assert!(!options.insert("a".to_string()));
    assert!(options.contains("c"));
    let default = RecursiveOptions::default();
    assert!(!default.contains("a"));
}

#[test]
fn unused_keys_are_found() {
    let unused = vec![Vec::new(), strings(&["featurs"]), strings(&["x"])];
    assert_eq!(first_with_unused_keys(&unused), Some(1));
    assert_eq!(first_with_unused_keys(&vec![Vec::new()]), None);
}

#[test]
fn clippy_args_default_groups() {
    assert_eq!(
        clippy_args(&Vec::new(), false, false),
        strings(&["--force-warn=clippy::all", "--force-warn=clippy::pedantic", "--remap-path-prefix==target/lintcheck"])
    );
    assert_eq!(
        clippy_args(&Vec::new(), true, true),
        strings(&[
            "--force-warn=clippy::all",
            "--force-warn=clippy::cargo",
            "--force-warn=clippy::nursery",
            "--force-warn=clippy::pedantic",
            "--force-warn=clippy::restriction",
            "--remap-path-prefix==target/lintcheck",
            "--no-deps",
        ])
    );
}

#[test]
fn clippy_args_lint_filter() {
    assert_eq!(
        clippy_args(&strings(&["clippy::needless_return"]), true, false),
        strings(&["--force-warn=clippy::needless_return", "--remap-path-prefix==target/lintcheck"])
    );
}

#[test]
fn join_puts_separator_between_parts() {
    assert_eq!(join_strings(&strings(&["a", "b", "c"]), "__CLIPPY_HACKERY__"), "a__CLIPPY_HACKERY__b__CLIPPY_HACKERY__c");
    assert_eq!(join_strings(&strings(&["a"]), ","), "a");
    assert_eq!(join_strings(&Vec::new(), ","), "");
}

#[test]
fn package_selection() {
    let packages = vec![pkg("a", "1.0.0"), pkg("b", "0.1.0"), pkg("b", "0.2.0")];
    assert_eq!(package_arg(&packages[1]), "-pb@0.1.0");
    assert_eq!(find_package(&packages, "b"), Some(1));
    assert_eq!(find_package(&packages, "z"), None);
}

#[test]
fn cargo_check_arguments() {
    let specified = vec![pkg("a", "1.0.0"), pkg("b", "0.1.0")];
    let check = cargo_check(&specified, &Vec::new(), false, Some("b"), true).unwrap();
    assert_eq!(
        check.cargo_args,
        strings(&["check", "-Zavoid-dev-deps", "--target-dir=build", "-pb@0.1.0", "-pa@1.0.0", "-pb@0.1.0"])
    );
    assert_eq!(
        check.clippy_args,
        "--force-warn=clippy::all__CLIPPY_HACKERY__--force-warn=clippy::pedantic__CLIPPY_HACKERY__--remap-path-prefix==target/lintcheck__CLIPPY_HACKERY__--no-deps"
    );
    assert!(cargo_check(&specified, &Vec::new(), false, Some("zzz"), false).is_none());
    let plain = cargo_check(&specified, &Vec::new(), false, None, false).unwrap();
    assert_eq!(plain.cargo_args, strings(&["check", "-Zavoid-dev-deps", "--target-dir=build"]));
}

#[test]
fn recursive_mode_picks_newest_versions_by_name() {
    let packages = vec![
        pkg("root", "0.0.0"),
        pkg("zeta", "1.0.9"),
        pkg("alpha", "0.3.0"),
        pkg("zeta", "1.0.10"),
        pkg("ignored", "1.0.0"),
        pkg("alpha", "0.2.0"),
    ];
    let ignore = RecursiveOptions::from_names(strings(&["ignored"]));
    let chosen = recursive_packages(&packages, &ignore, &Vec::new(), "root").unwrap();
    assert_eq!(chosen, vec![2, 3]);
}

#[test]
fn listed_packages_override_newer_ones() {
    let packages = vec![pkg("root", "0.0.0"), pkg("zeta", "2.0.0"), pkg("zeta", "1.0.0"), pkg("ignored", "1.0.0")];
    let ignore = RecursiveOptions::from_names(strings(&["ignored"]));
    let chosen = recursive_packages(&packages, &ignore, &vec![2, 3], "root").unwrap();
    assert_eq!(chosen, vec![3, 2]);
}

#[test]
fn unparsable_versions_fail_the_selection() {
    let packages = vec![pkg("a", "1.0.0"), pkg("a", "not a version")];
    assert!(recursive_packages(&packages, &RecursiveOptions::new(), &Vec::new(), "root").is_none());
    let single = vec![pkg("a", "not a version")];
    assert_eq!(recursive_packages(&single, &RecursiveOptions::new(), &Vec::new(), "root"), Some(vec![0]));
}

#[test]
fn equal_versions_keep_the_later_package() {
    let packages = vec![pkg("a", "1.0.0"), pkg("a", "1.0.0")];
    assert_eq!(recursive_packages(&packages, &RecursiveOptions::new(), &Vec::new(), "root"), Some(vec![1]));
}

#[test]
fn workspace_members_and_patches() {
    let packages = vec![pkg("a", "1.0.0"), pkg("b", "0.1.0"), pkg("a", "2.0.0")];
    assert_eq!(workspace_path(&packages[0]), "sources/a-1.0.0");
    let layout = workspace_layout(&packages);
    assert_eq!(layout.members, strings(&["sources/a-1.0.0", "sources/b-0.1.0", "sources/a-2.0.0"]));
    assert_eq!(layout.patch_names, strings(&["a", "b"]));
    assert_eq!(layout.patch_paths, strings(&["sources/a-2.0.0", "sources/b-0.1.0"]));
}

#[test]
fn manifest_cleanup() {
    assert_eq!(
        manifest_edits(true, false),
        ManifestEdits { clear_profile: true, clear_resolver: true, set_edition_2015: true }
    );
    assert_eq!(
        manifest_edits(true, true),
        ManifestEdits { clear_profile: true, clear_resolver: true, set_edition_2015: false }
    );
    assert_eq!(
        manifest_edits(false, false),
        ManifestEdits { clear_profile: true, clear_resolver: false, set_edition_2015: false }
    );
}

#[test]
fn perf_runs_are_numbered_after_the_largest() {
    assert_eq!(perf_run_number(true, &strings(&["7"])), Some(0));
    assert_eq!(perf_run_number(false, &strings(&["3", "notes", "12", "-1", "007"])), Some(13));
    assert_eq!(perf_run_number(false, &strings(&["notes"])), Some(0));
    assert_eq!(perf_run_number(false, &strings(&["4294967295"])), None);
    assert_eq!(perf_run_number(false, &strings(&["4294967296"])), Some(0));
    assert_eq!(next_run_number(false, &vec![None, Some(5), Some(2)]), Some(6));
    assert_eq!(next_run_number(false, &vec![Some(u32::MAX)]), None);
}

#[test]
fn build_and_path_arguments() {
    assert_eq!(build_clippy_args(false), strings(&["run", "--bin=clippy-driver", "--", "--version"]));
    assert_eq!(build_clippy_args(true), strings(&["run", "--bin=clippy-driver", "--release", "--", "--version"]));
    assert_eq!(clippy_driver_path(true, ".exe"), "target/release/clippy-driver.exe");
    assert_eq!(clippy_driver_path(false, ""), "target/debug/clippy-driver");
    assert_eq!(
        metadata_options("x86_64-unknown-linux-gnu"),
        strings(&["-Zbindeps", "--filter-platform", "x86_64-unknown-linux-gnu", "-Zdirect-minimal-versions"])
    );
}

#[test]
fn install_arguments_and_exit() {
    assert_eq!(
        install_build_args("/t/bin"),
        strings(&[
            "build",
            "--release",
            "--bin",
            "cargo-clippy",
            "--bin",
            "clippy-driver",
            "-Zunstable-options",
            "--out-dir",
            "/t/bin",
        ])
    );
    assert_eq!(install_exit(Some(0)), InstallExit { code: 0, killed_by_signal: false });
    assert_eq!(install_exit(Some(2)), InstallExit { code: 2, killed_by_signal: false });
    assert_eq!(install_exit(None), InstallExit { code: 1, killed_by_signal: true });
}

#[test]
fn repeated_crate_is_skipped() {
    let mut seen = SeenDrivers::new();
    assert!(!seen.contains(&info()));
    assert_eq!(driver_mode_for(&mut seen, info(), false), DriverMode::Clippy);
    assert!(seen.contains(&info()));
    assert_eq!(driver_mode_for(&mut seen, info(), false), DriverMode::Rustc);
    assert_eq!(driver_mode_for(&mut seen, info(), true), DriverMode::Rustc);
    let build_script = DriverInfo {
        package_name: "regex".to_string(),
        crate_name: "build_script_build".to_string(),
        version: "1.10.0".to_string(),
    };
    assert!(!seen.contains(&build_script));
    assert_eq!(driver_mode_for(&mut seen, build_script, true), DriverMode::Perf);
    let newer = DriverInfo { package_name: "regex".to_string(), crate_name: "regex".to_string(), version: "1.11.0".to_string() };
    assert_eq!(driver_mode_for(&mut seen, newer, false), DriverMode::Clippy);
}

fn node(id: &str, deps: &[&str]) -> ResolveNode {
    ResolveNode { id: id.to_string(), deps: strings(deps) }
}

#[test]
fn specified_packages_are_the_roots_dependencies() {
    let nodes = vec![node("a 1.0", &[]), node("root 0.0", &["b 2.0", "a 1.0"]), node("b 2.0", &["a 1.0"])];
    let ids = strings(&["root 0.0", "a 1.0", "b 2.0"]);
    assert_eq!(specified_packages(&nodes, &"root 0.0".to_string(), &ids), Some(vec![2, 1]));
    assert_eq!(specified_packages(&nodes, &"b 2.0".to_string(), &ids), Some(vec![1]));
    assert_eq!(specified_packages(&nodes, &"missing".to_string(), &ids), None);
    let short_ids = strings(&["root 0.0", "a 1.0"]);
    assert_eq!(specified_packages(&nodes, &"root 0.0".to_string(), &short_ids), None);
    let leaf = vec![node("root 0.0", &[])];
    assert_eq!(specified_packages(&leaf, &"root 0.0".to_string(), &ids), Some(vec![]));
}

#[test]
fn manifest_constants() {
    let (name, edition) = sources_package();
    assert_eq!(name, "lintcheck_sources");
    assert_eq!(edition, "2024");
    assert_eq!(workspace_resolver(), "2");
    assert_eq!(assumed_edition(), "2015");
}

#[test]
fn run_numbers_accept_a_plus_sign() {
    let names = strings(&["+7", "3", "+", "x", "007"]);
    assert_eq!(perf_run_number(false, &names), Some(8));
    assert_eq!(perf_run_number(false, &strings(&["+", "-1", " 2"])), Some(0));
}

#[test]
fn recursive_mode_keeps_the_greatest_of_many_versions() {
    let packages = vec![
        pkg("root", "0.0.0"),
        pkg("serde", "1.0.9"),
        pkg("serde", "1.0.200"),
        pkg("serde", "1.0.30"),
        pkg("serde", "1.0.200-rc.1"),
        pkg("serde", "0.9.15"),
    ];
    let chosen = recursive_packages(&packages, &RecursiveOptions::new(), &Vec::new(), "root").unwrap();
    assert_eq!(chosen, vec![2]);
}

const CLIPPY_DIAGNOSTIC: &str = r#"{"$message_type":"diagnostic","message":"this looks like a formatting argument","code":{"code":"clippy::literal_string_with_formatting_args","explanation":null},"level":"warning","spans":[],"children":[],"rendered":"warning: this looks like a formatting argument\n"}"#;
const PLAIN_DIAGNOSTIC: &str = r#"{"$message_type":"diagnostic","message":"unused variable: `x`","code":null,"level":"warning","spans":[],"children":[],"rendered":null}"#;

#[test]
fn dependency_output_becomes_warnings() {
    let stderr = format!("   Compiling regex v1.10.0\n{CLIPPY_DIAGNOSTIC}\r\nnot json\n{PLAIN_DIAGNOSTIC}");
    let warnings = dependency_warnings(&stderr, &info());
    assert_eq!(warnings.len(), 2);
    assert_eq!(warnings[0].diagnostic.message, "this looks like a formatting argument");
    assert_eq!(warnings[0].diagnostic.code.as_deref(), Some("clippy::literal_string_with_formatting_args"));
    assert_eq!(warnings[0].diagnostic.rendered.as_deref(), Some("warning: this looks like a formatting argument\n"));
    assert_eq!(warnings[1].diagnostic.message, "unused variable: `x`");
    assert_eq!(warnings[1].diagnostic.code, None);
    assert_eq!(warnings[1].diagnostic.rendered, None);
    for warning in &warnings {
        assert_eq!(warning.url, "https://docs.rs/crate/regex/1.10.0/source/src/{file}#{line}");
        assert_eq!(warning.package, "regex");
    }
    assert!(dependency_warnings("", &info()).is_empty());
    assert!(dependency_warnings("warning: plain\n\n", &info()).is_empty());
    let joined = format!("{CLIPPY_DIAGNOSTIC}{PLAIN_DIAGNOSTIC}");
    assert!(dependency_warnings(&joined, &info()).is_empty());
}

#[test]
fn warnings_keep_only_parsed_lines() {
    let parsed = vec![
        None,
        Some(DiagnosticInfo { message: "m".to_string(), code: Some("c".to_string()), rendered: None }),
        None,
    ];
    let warnings = collect_warnings(&parsed, &info());
    assert_eq!(warnings.len(), 1);
    assert_eq!(warnings[0].diagnostic.message, "m");
    assert_eq!(warnings[0].package, "regex");
}

#[test]
fn diagnostics_are_echoed_unless_success() {
    assert!(!writes_diagnostics(DriverExit::Success));
    assert!(writes_diagnostics(DriverExit::Failure { code: 1 }));
    assert!(writes_diagnostics(DriverExit::Killed));
}
