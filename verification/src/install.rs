//! Installing a toolchain that holds the clippy built from this repository:
//! the command that builds it into the toolchain, and the exit status.
use vstd::prelude::*;
use crate::text::views;

verus! {

/// The arguments of the `cargo` command that builds `cargo-clippy` and
/// `clippy-driver` in release mode into `bin_dir`, the toolchain's `bin`
/// directory.
pub fn install_build_args(bin_dir: &str) -> (args: Vec<String>)
    ensures
        views(args@) == seq![
            "build"@,
            "--release"@,
            "--bin"@,
            "cargo-clippy"@,
            "--bin"@,
            "clippy-driver"@,
            "-Zunstable-options"@,
            "--out-dir"@,
            bin_dir@,
        ],
{
    let mut args: Vec<String> = Vec::new();
    args.push(String::from_str("build"));
    args.push(String::from_str("--release"));
    args.push(String::from_str("--bin"));
    args.push(String::from_str("cargo-clippy"));
    args.push(String::from_str("--bin"));
    args.push(String::from_str("clippy-driver"));
    args.push(String::from_str("-Zunstable-options"));
    args.push(String::from_str("--out-dir"));
    args.push(String::from_str(bin_dir));
    assert(views(args@) =~= seq![
        "build"@,
        "--release"@,
        "--bin"@,
        "cargo-clippy"@,
        "--bin"@,
        "clippy-driver"@,
        "-Zunstable-options"@,
        "--out-dir"@,
        bin_dir@,
    ]);
    args
}

/// How the installer exits after the build.
#[derive(Clone, Copy, Debug, PartialEq, Eq, Structural)]
pub struct InstallExit {
    /// The exit code.
    pub code: i32,
    /// Whether to report that the build was killed by a signal.
    pub killed_by_signal: bool,
}

/// The installer exits with the build's exit code, or with 1 after
/// reporting that a signal killed the build.
pub fn install_exit(build_code: Option<i32>) -> (exit: InstallExit)
    ensures
        exit == match build_code {
            Some(c) => InstallExit { code: c, killed_by_signal: false },
            None => InstallExit { code: 1, killed_by_signal: true },
        },
{
    match build_code {
        Some(c) => InstallExit { code: c, killed_by_signal: false },
        None => InstallExit { code: 1, killed_by_signal: true },
    }
}

} // verus!
