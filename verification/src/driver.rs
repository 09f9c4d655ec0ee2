//! The decisions of lintcheck when cargo runs it as the compiler wrapper of
//! one crate: which program to run, where `perf` writes its data, which part
//! of the compiler's error output goes back to the lintcheck server, and the
//! exit code.
use vstd::prelude::*;
use crate::text::views;

verus! {

/// What the lintcheck server asks the wrapper to do with a crate.
#[derive(Clone, Copy, Debug, PartialEq, Eq, Structural)]
pub enum DriverMode {
    /// Run clippy on the crate.
    Clippy,
    /// Run clippy on the crate under `perf record`.
    Perf,
    /// Run plain `rustc`.
    Rustc,
}

/// The crate the wrapper was started for.
pub struct DriverInfo {
    pub package_name: String,
    /// `CARGO_CRATE_NAME`: may be the name of a binary or of the build script
    /// rather than the package's name.
    pub crate_name: String,
    pub version: String,
}

/// `{perf_dir}/{package}[.{crate}].data`: the crate's name is added when it
/// differs from the package's name.
pub open spec fn spec_perf_data_path(perf_dir: Seq<char>, package_name: Seq<char>, crate_name: Seq<char>) -> Seq<char> {
    perf_dir + "/"@ + package_name + (if crate_name != package_name {
        "."@ + crate_name
    } else {
        Seq::empty()
    }) + ".data"@
}

/// The file that `perf record` writes for a crate, under `perf_dir`.
pub fn perf_data_path(perf_dir: &str, package_name: &str, crate_name: &str) -> (path: String)
    ensures
        path@ == spec_perf_data_path(perf_dir@, package_name@, crate_name@),
{
    let mut path = String::from_str(perf_dir);
    path.append("/");
    path.append(package_name);
    let crate_owned = String::from_str(crate_name);
    let package_owned = String::from_str(package_name);
    if crate_owned != package_owned {
        path.append(".");
        path.append(crate_name);
    }
    path.append(".data");
    path
}

/// The perf data file lies in `perf_dir`, is named after the package, ends
/// in `.data`, and carries the crate's name exactly when it differs from the
/// package's: two crates of one package get two files, and a package's main
/// crate gets the plain package name.
pub proof fn lemma_perf_data_path_laws(perf_dir: Seq<char>, package_name: Seq<char>, crate_name: Seq<char>)
    ensures
        spec_perf_data_path(perf_dir, package_name, crate_name).subrange(0, perf_dir.len() + 1 + package_name.len() as int)
            == perf_dir + "/"@ + package_name,
        spec_perf_data_path(perf_dir, package_name, crate_name).len() >= 5,
        spec_perf_data_path(perf_dir, package_name, crate_name).subrange(
            spec_perf_data_path(perf_dir, package_name, crate_name).len() - 5,
            spec_perf_data_path(perf_dir, package_name, crate_name).len() as int,
        ) == ".data"@,
        crate_name == package_name ==> spec_perf_data_path(perf_dir, package_name, crate_name) == perf_dir + "/"@
            + package_name + ".data"@,
        crate_name != package_name ==> spec_perf_data_path(perf_dir, package_name, crate_name).len()
            == perf_dir.len() + package_name.len() + crate_name.len() + 7,
{
    reveal_strlit("/");
    reveal_strlit(".data");
    reveal_strlit(".");
    let p = spec_perf_data_path(perf_dir, package_name, crate_name);
    let head = perf_dir + "/"@ + package_name;
    let mid: Seq<char> = if crate_name != package_name { "."@ + crate_name } else { Seq::empty() };
    assert(p == head + mid + ".data"@);
    assert(p.subrange(0, head.len() as int) =~= head);
    assert(p.subrange(p.len() - 5, p.len() as int) =~= ".data"@);
    if crate_name == package_name {
        assert(mid =~= Seq::<char>::empty());
        assert(p =~= head + ".data"@);
    }
}

/// A program to run and its arguments, before the arguments that cargo
/// passed to the wrapper.
pub struct DriverCommand {
    pub program: String,
    pub args: Vec<String>,
}

/// The arguments of `perf record` before the clippy driver's own command line.
pub open spec fn perf_record_args(data_path: Seq<char>, clippy_driver: Seq<char>) -> Seq<Seq<char>> {
    seq![
        "record"@,
        "-e"@,
        "instructions"@,
        "-g"@,
        "--quiet"@,
        "--compression-level=22"@,
        "--freq=3000"@,
        "-o"@,
        data_path,
        "--"@,
        clippy_driver,
    ]
}

/// The command for a crate in the given mode: the clippy driver itself,
/// the clippy driver under `perf record` (which writes to the crate's data
/// file under `perf_dir`), or nothing when plain `rustc` is to run.
pub fn driver_command(
    mode: DriverMode,
    clippy_driver: &str,
    info: &DriverInfo,
    perf_dir: Option<&str>,
    crate_name: Option<&str>,
) -> (command: Option<DriverCommand>)
    requires
        mode is Perf ==> perf_dir is Some && crate_name is Some,
    ensures
        match mode {
            DriverMode::Rustc => command is None,
            DriverMode::Clippy => command matches Some(c) && c.program@ == clippy_driver@
                && c.args@.len() == 0,
            DriverMode::Perf => command matches Some(c) && c.program@ == "perf"@
                && views(c.args@) == perf_record_args(
                    spec_perf_data_path(perf_dir->0@, info.package_name@, crate_name->0@),
                    clippy_driver@,
                ),
        },
{
    match mode {
        DriverMode::Rustc => None,
        DriverMode::Clippy => Some(DriverCommand { program: String::from_str(clippy_driver), args: Vec::new() }),
        DriverMode::Perf => {
            let data_path = perf_data_path(perf_dir.unwrap(), info.package_name.as_str(), crate_name.unwrap());
            let mut args: Vec<String> = Vec::new();
            args.push(String::from_str("record"));
            args.push(String::from_str("-e"));
            args.push(String::from_str("instructions"));
            args.push(String::from_str("-g"));
            args.push(String::from_str("--quiet"));
            args.push(String::from_str("--compression-level=22"));
            args.push(String::from_str("--freq=3000"));
            args.push(String::from_str("-o"));
            args.push(data_path);
            args.push(String::from_str("--"));
            args.push(String::from_str(clippy_driver));
            assert(views(args@) =~= perf_record_args(
                spec_perf_data_path(perf_dir->0@, info.package_name@, crate_name->0@),
                clippy_driver@,
            ));
            Some(DriverCommand { program: String::from_str("perf"), args })
        },
    }
}

/// Under `perf`, the clippy driver is the last argument of `perf record`,
/// right after the `--` that ends perf's own options, and perf writes to the
/// data file given just before it after `-o`.
pub proof fn lemma_perf_record_args_laws(data_path: Seq<char>, clippy_driver: Seq<char>)
    ensures
        perf_record_args(data_path, clippy_driver)[0] == "record"@,
        perf_record_args(data_path, clippy_driver).last() == clippy_driver,
        perf_record_args(data_path, clippy_driver)[perf_record_args(data_path, clippy_driver).len() - 2] == "--"@,
        perf_record_args(data_path, clippy_driver)[perf_record_args(data_path, clippy_driver).len() - 3] == data_path,
        perf_record_args(data_path, clippy_driver)[perf_record_args(data_path, clippy_driver).len() - 4] == "-o"@,
{
}

/// Whether `needle` occurs in `haystack` as a contiguous run of bytes.
pub open spec fn contains_bytes(haystack: Seq<u8>, needle: Seq<u8>) -> bool {
    exists|i: int|
        0 <= i && i + needle.len() <= haystack.len() && #[trigger] haystack.subrange(i, i + needle.len())
            == needle
}

/// Calls `bstr::ByteSlice::contains_str`, which by its documentation returns
/// true if and only if the byte string contains the needle.
#[verifier::external_body]
fn bytes_contain(haystack: &[u8], needle: &[u8]) -> (found: bool)
    ensures
        found == contains_bytes(haystack@, needle@),
{
    bstr::ByteSlice::contains_str(haystack, needle)
}

/// The bytes that mark a diagnostic of the compiler's JSON output.
pub open spec fn diagnostic_marker() -> Seq<u8> {
    "\"$message_type\":\"diagnostic\""@.map_values(|c: char| c as u8)
}

/// Whether a line of the clippy driver's error output holds a JSON
/// diagnostic: such lines go to the lintcheck server, the others are written
/// out as they are.
pub fn is_diagnostic_line(line: &[u8]) -> (diagnostic: bool)
    ensures
        diagnostic == contains_bytes(line@, diagnostic_marker()),
{
    let marker_str = "\"$message_type\":\"diagnostic\"";
    let marker = marker_str.as_bytes();
    proof {
        reveal_strlit("\"$message_type\":\"diagnostic\"");
        vstd::string::is_ascii_spec_bytes(marker_str);
        assert(marker@ =~= diagnostic_marker());
    }
    bytes_contain(line, marker)
}

/// What the wrapper does once the clippy driver has exited. Unless the
/// driver succeeded, the diagnostics sent to the server are also written to
/// the wrapper's own error output.
#[derive(Clone, Copy, Debug, PartialEq, Eq, Structural)]
pub enum DriverExit {
    /// Exit with code 0.
    Success,
    /// Write the diagnostics to the error output as well, then exit with the
    /// driver's code.
    Failure { code: i32 },
    /// The driver was killed by a signal: write the diagnostics to the error
    /// output as well, then stop with a panic, as there is no code to exit
    /// with.
    Killed,
}

/// Whether the wrapper writes the diagnostics to its own error output on
/// `exit`: on every exit but a success.
pub fn writes_diagnostics(exit: DriverExit) -> (writes: bool)
    ensures
        writes == !(exit is Success),
{
    match exit {
        DriverExit::Success => false,
        _ => true,
    }
}

/// The wrapper's exit after the clippy driver exited with `code` (`None`
/// when a signal killed it).
pub fn driver_exit(code: Option<i32>) -> (exit: DriverExit)
    ensures
        exit == match code {
            Some(0) => DriverExit::Success,
            Some(c) => DriverExit::Failure { code: c },
            None => DriverExit::Killed,
        },
{
    match code {
        Some(0) => DriverExit::Success,
        Some(c) => DriverExit::Failure { code: c },
        None => DriverExit::Killed,
    }
}

} // verus!
