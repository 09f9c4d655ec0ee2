//! The lintcheck server's side of recursive mode: which mode each wrapper
//! runs in, how its messages are framed, and where its warnings link to.
use vstd::prelude::*;
use crate::driver::{DriverInfo, DriverMode};
use crate::text::{spec_lines, str_lines, views};

verus! {

/// What identifies a wrapper's crate: its package, crate name and version.
pub open spec fn driver_key(driver: DriverInfo) -> (Seq<char>, Seq<char>, Seq<char>) {
    (driver.package_name@, driver.crate_name@, driver.version@)
}

/// The crates the server has already answered in this run. A dependency can
/// be compiled more than once (checked, and built as a build dependency);
/// only its first wrapper runs clippy.
pub struct SeenDrivers {
    drivers: Vec<DriverInfo>,
}

impl View for SeenDrivers {
    type V = Set<(Seq<char>, Seq<char>, Seq<char>)>;

    /// The keys of the crates seen so far.
    closed spec fn view(&self) -> Set<(Seq<char>, Seq<char>, Seq<char>)> {
        self.drivers@.map_values(|d: DriverInfo| driver_key(d)).to_set()
    }
}

/// The mode due for a wrapper of `driver` when `seen` holds the crates
/// answered before: plain `rustc` for a crate seen already, otherwise clippy,
/// under `perf` when performance data is asked for.
pub open spec fn spec_driver_mode(
    seen: Set<(Seq<char>, Seq<char>, Seq<char>)>,
    driver: (Seq<char>, Seq<char>, Seq<char>),
    perf: bool,
) -> DriverMode {
    if seen.contains(driver) {
        DriverMode::Rustc
    } else if perf {
        DriverMode::Perf
    } else {
        DriverMode::Clippy
    }
}

/// Whether two wrappers were started for the same crate.
fn same_driver(a: &DriverInfo, b: &DriverInfo) -> (same: bool)
    ensures
        same == (driver_key(*a) == driver_key(*b)),
{
    a.package_name == b.package_name && a.crate_name == b.crate_name && a.version == b.version
}

impl SeenDrivers {
    /// No crate seen yet.
    pub fn new() -> (seen: Self)
        ensures
            seen@ == Set::<(Seq<char>, Seq<char>, Seq<char>)>::empty(),
    {
        let seen = SeenDrivers { drivers: Vec::new() };
        assert(seen.drivers@.map_values(|d: DriverInfo| driver_key(d)).to_set()
            =~= Set::<(Seq<char>, Seq<char>, Seq<char>)>::empty());
        seen
    }

    /// Whether a wrapper was already answered for the crate of `driver`.
    pub fn contains(&self, driver: &DriverInfo) -> (found: bool)
        ensures
            found == self@.contains(driver_key(*driver)),
    {
        let ghost keys = self.drivers@.map_values(|d: DriverInfo| driver_key(d));
        let mut i: usize = 0;
        while i < self.drivers.len()
            invariant
                0 <= i <= self.drivers@.len(),
                keys == self.drivers@.map_values(|d: DriverInfo| driver_key(d)),
                forall|k: int| 0 <= k < i ==> keys[k] != driver_key(*driver),
            decreases self.drivers.len() - i,
        {
            if same_driver(&self.drivers[i], driver) {
                assert(keys[i as int] == driver_key(*driver));
                assert(keys.contains(driver_key(*driver)));
                return true;
            }
            i = i + 1;
        }
        assert(!keys.contains(driver_key(*driver)));
        false
    }
}

/// The mode the server answers a wrapper of `driver` with, recording the
/// crate as seen: a crate met before is skipped (plain `rustc`), any other is
/// checked by clippy, under `perf` when performance data is asked for.
pub fn driver_mode_for(seen: &mut SeenDrivers, driver: DriverInfo, perf: bool) -> (mode: DriverMode)
    ensures
        mode == spec_driver_mode(old(seen)@, driver_key(driver), perf),
        final(seen)@ == old(seen)@.insert(driver_key(driver)),
{
    if seen.contains(&driver) {
        assert(old(seen)@.insert(driver_key(driver)) =~= old(seen)@);
        DriverMode::Rustc
    } else {
        let ghost before = seen.drivers@;
        seen.drivers.push(driver);
        proof {
            let f = |d: DriverInfo| driver_key(d);
            assert(seen.drivers@.map_values(f) =~= before.map_values(f).push(driver_key(driver)));
            before.map_values(f).lemma_push_to_set_commute(driver_key(driver));
        }
        if perf {
            DriverMode::Perf
        } else {
            DriverMode::Clippy
        }
    }
}

/// A crate is checked by clippy at most once per run: once the server has
/// answered a wrapper of a crate, every later wrapper of the same crate is
/// answered plain `rustc`, and the seen set no longer changes for it.
pub proof fn lemma_seen_crate_skipped(
    seen: Set<(Seq<char>, Seq<char>, Seq<char>)>,
    driver: (Seq<char>, Seq<char>, Seq<char>),
    perf: bool,
    later_perf: bool,
)
    ensures
        spec_driver_mode(seen.insert(driver), driver, later_perf) == DriverMode::Rustc,
        seen.insert(driver).insert(driver) == seen.insert(driver),
        !seen.contains(driver) ==> spec_driver_mode(seen, driver, perf) != DriverMode::Rustc,
{
    assert(seen.insert(driver).insert(driver) =~= seen.insert(driver));
}

/// A message of the wrapper protocol: one JSON value followed by a newline.
pub fn frame_line(json: Vec<u8>) -> (line: Vec<u8>)
    ensures
        line@ == json@.push(10u8),
{
    let mut line = json;
    line.push(10u8);
    line
}

/// The link template for the sources of a crate on docs.rs, with the
/// placeholders `{file}` and `{line}` left for each warning to fill in.
pub open spec fn spec_docs_rs_base_url(package_name: Seq<char>, version: Seq<char>) -> Seq<char> {
    "https://docs.rs/crate/"@ + package_name + "/"@ + version + "/source/src/{file}#{line}"@
}

/// Links warnings of a dependency to its sources on docs.rs: dependencies
/// checked in recursive mode almost always come from crates.io, and the
/// links then do not depend on the remapped local paths.
pub fn docs_rs_base_url(driver: &DriverInfo) -> (url: String)
    ensures
        url@ == spec_docs_rs_base_url(driver.package_name@, driver.version@),
{
    let mut url = String::from_str("https://docs.rs/crate/");
    url.append(driver.package_name.as_str());
    url.append("/");
    url.append(driver.version.as_str());
    url.append("/source/src/{file}#{line}");
    url
}

/// What lintcheck reads of a compiler diagnostic: its message, the code of
/// the lint or error (for clippy, the lint's name), and the message as the
/// compiler renders it.
#[derive(Debug)]
pub struct DiagnosticInfo {
    pub message: String,
    pub code: Option<String>,
    pub rendered: Option<String>,
}

/// The contents of an optional string.
pub open spec fn opt_view(s: Option<String>) -> Option<Seq<char>> {
    match s {
        Some(t) => Some(t@),
        None => None,
    }
}

/// A diagnostic as plain values: message, code, rendered text.
pub open spec fn diagnostic_view(d: DiagnosticInfo) -> (Seq<char>, Option<Seq<char>>, Option<Seq<char>>) {
    (d.message@, opt_view(d.code), opt_view(d.rendered))
}

/// What `serde_json::from_str::<cargo_metadata::diagnostic::Diagnostic>`
/// makes of `line`: `None` when the line is not such a JSON diagnostic, else
/// its message, its code and its rendered text.
pub uninterp spec fn json_diagnostic(line: Seq<char>) -> Option<(Seq<char>, Option<Seq<char>>, Option<Seq<char>>)>;

/// Calls `serde_json::from_str` to read `line` as a
/// `cargo_metadata::diagnostic::Diagnostic`, and keeps its message, the
/// code's name and the rendered text. Which lines parse, and what they give,
/// follow the JSON grammar and the type's serde layout, and are only named.
#[verifier::external_body]
fn parse_diagnostic(line: &str) -> (diagnostic: Option<DiagnosticInfo>)
    ensures
        match diagnostic {
            Some(d) => json_diagnostic(line@) == Some(diagnostic_view(d)),
            None => json_diagnostic(line@) is None,
        },
{
    match serde_json::from_str::<cargo_metadata::diagnostic::Diagnostic>(line) {
        Ok(d) => Some(DiagnosticInfo { message: d.message, code: d.code.map(|c| c.code), rendered: d.rendered }),
        Err(_) => None,
    }
}

/// A copy of an optional string.
fn copy_opt(s: &Option<String>) -> (copy: Option<String>)
    ensures
        opt_view(copy) == opt_view(*s),
{
    match s {
        Some(t) => Some(t.clone()),
        None => None,
    }
}

/// A copy of a diagnostic.
fn copy_diagnostic(d: &DiagnosticInfo) -> (copy: DiagnosticInfo)
    ensures
        diagnostic_view(copy) == diagnostic_view(*d),
{
    DiagnosticInfo { message: d.message.clone(), code: copy_opt(&d.code), rendered: copy_opt(&d.rendered) }
}

/// A diagnostic that a dependency's wrapper sent back, with the link template
/// of the dependency's sources and the package's name.
#[derive(Debug)]
pub struct DependencyWarning {
    pub diagnostic: DiagnosticInfo,
    pub url: String,
    pub package: String,
}

/// The diagnostics among `parsed`, in order.
pub open spec fn kept_diagnostics(
    parsed: Seq<Option<(Seq<char>, Option<Seq<char>>, Option<Seq<char>>)>>,
) -> Seq<(Seq<char>, Option<Seq<char>>, Option<Seq<char>>)>
    decreases parsed.len(),
{
    if parsed.len() == 0 {
        Seq::empty()
    } else {
        let rest = kept_diagnostics(parsed.drop_last());
        match parsed.last() {
            Some(d) => rest.push(d),
            None => rest,
        }
    }
}

/// The diagnostics of two stretches of output, one after the other, are
/// those of the first followed by those of the second: no diagnostic is
/// dropped, duplicated or moved, and a line that is no diagnostic adds none.
pub proof fn lemma_kept_diagnostics_append(
    a: Seq<Option<(Seq<char>, Option<Seq<char>>, Option<Seq<char>>)>>,
    b: Seq<Option<(Seq<char>, Option<Seq<char>>, Option<Seq<char>>)>>,
)
    ensures
        kept_diagnostics(a + b) == kept_diagnostics(a) + kept_diagnostics(b),
        kept_diagnostics(seq![None]) == Seq::<(Seq<char>, Option<Seq<char>>, Option<Seq<char>>)>::empty(),
        forall|d: (Seq<char>, Option<Seq<char>>, Option<Seq<char>>)| #[trigger] kept_diagnostics(seq![Some(d)]) == seq![d],
    decreases b.len(),
{
    reveal_with_fuel(kept_diagnostics, 2);
    assert(seq![None::<(Seq<char>, Option<Seq<char>>, Option<Seq<char>>)>].drop_last() =~= Seq::empty());
    assert forall|d: (Seq<char>, Option<Seq<char>>, Option<Seq<char>>)| #[trigger] kept_diagnostics(seq![Some(d)]) == seq![d] by {
        assert(seq![Some(d)].drop_last() =~= Seq::empty());
        assert(Seq::<(Seq<char>, Option<Seq<char>>, Option<Seq<char>>)>::empty().push(d) =~= seq![d]);
    }
    if b.len() == 0 {
        assert(a + b =~= a);
    } else {
        assert((a + b).drop_last() =~= a + b.drop_last());
        assert((a + b).last() == b.last());
        lemma_kept_diagnostics_append(a, b.drop_last());
    }
}

/// Each warning of `warnings` links to the sources of `driver`'s package on
/// docs.rs and names that package.
pub open spec fn warnings_of(warnings: Seq<DependencyWarning>, driver: DriverInfo) -> bool {
    forall|k: int| 0 <= k < warnings.len() ==> {
        &&& (#[trigger] warnings[k]).url@ == spec_docs_rs_base_url(driver.package_name@, driver.version@)
        &&& warnings[k].package@ == driver.package_name@
    }
}

/// The warnings of a dependency from what each line of its output parsed to
/// (`None` for a line that is no diagnostic): one per diagnostic, in order.
pub fn collect_warnings(parsed: &Vec<Option<DiagnosticInfo>>, driver: &DriverInfo) -> (warnings: Vec<DependencyWarning>)
    ensures
        warnings@.map_values(|w: DependencyWarning| diagnostic_view(w.diagnostic)) == kept_diagnostics(
            parsed@.map_values(|p: Option<DiagnosticInfo>| match p {
                Some(d) => Some(diagnostic_view(d)),
                None => None,
            }),
        ),
        warnings_of(warnings@, *driver),
{
    let ghost pv = parsed@.map_values(|p: Option<DiagnosticInfo>| match p {
        Some(d) => Some(diagnostic_view(d)),
        None => None,
    });
    let mut warnings: Vec<DependencyWarning> = Vec::new();
    let mut i: usize = 0;
    let n = parsed.len();
    while i < n
        invariant
            n == parsed@.len(),
            0 <= i <= n,
            pv == parsed@.map_values(|p: Option<DiagnosticInfo>| match p {
                Some(d) => Some(diagnostic_view(d)),
                None => None,
            }),
            warnings@.map_values(|w: DependencyWarning| diagnostic_view(w.diagnostic)) == kept_diagnostics(pv.take(i as int)),
            warnings_of(warnings@, *driver),
        decreases n - i,
    {
        assert(pv.take(i + 1).drop_last() == pv.take(i as int));
        match &parsed[i] {
            Some(found) => {
                let d = copy_diagnostic(found);
                let ghost before = warnings@;
                let url = docs_rs_base_url(driver);
                let package = driver.package_name.clone();
                warnings.push(DependencyWarning { diagnostic: d, url, package });
                assert(warnings@.map_values(|w: DependencyWarning| diagnostic_view(w.diagnostic)) =~= before.map_values(
                    |w: DependencyWarning| diagnostic_view(w.diagnostic),
                ).push(diagnostic_view(d)));
            },
            None => {},
        }
        i = i + 1;
    }
    assert(pv.take(n as int) == pv);
    warnings
}

/// The warnings that the lintcheck server keeps of a dependency's error
/// output `stderr`: each of its lines that reads as a JSON compiler
/// diagnostic gives one, in order, linked to the dependency's sources on
/// docs.rs and naming its package. Other lines are dropped.
pub fn dependency_warnings(stderr: &str, driver: &DriverInfo) -> (warnings: Vec<DependencyWarning>)
    ensures
        warnings@.map_values(|w: DependencyWarning| diagnostic_view(w.diagnostic)) == kept_diagnostics(
            spec_lines(stderr@).map_values(|line: Seq<char>| json_diagnostic(line)),
        ),
        warnings_of(warnings@, *driver),
{
    let lines = str_lines(stderr);
    let ghost lv = views(lines@);
    let mut parsed: Vec<Option<DiagnosticInfo>> = Vec::new();
    let mut i: usize = 0;
    while i < lines.len()
        invariant
            0 <= i <= lines@.len(),
            lv == views(lines@),
            parsed@.len() == i,
            forall|k: int| 0 <= k < i ==> (match #[trigger] parsed@[k] {
                Some(d) => Some(diagnostic_view(d)),
                None => None,
            }) == json_diagnostic(lv[k]),
        decreases lines.len() - i,
    {
        let p = parse_diagnostic(lines[i].as_str());
        parsed.push(p);
        i = i + 1;
    }
    let ghost pv = parsed@.map_values(|p: Option<DiagnosticInfo>| match p {
        Some(d) => Some(diagnostic_view(d)),
        None => None,
    });
    assert(pv =~= lv.map_values(|line: Seq<char>| json_diagnostic(line)));
    collect_warnings(&parsed, driver)
}

} // verus!
