use vstd::prelude::*;
use crate::text::{clone_strings_from, lemma_views_push, views};
use crate::input::RecursiveOptions;

verus! {

/// The kind of an I/O error, as far as the lintcheck logic tells kinds apart.
#[derive(Clone, Copy, Debug, PartialEq, Eq, Structural)]
pub enum IoErrorKind {
    /// The file or directory does not exist.
    NotFound,
    /// Any other kind of failure.
    Other,
}

/// Whether the outcome of a file operation is acceptable when a missing file
/// is not a problem: success, or a failure because the target did not exist.
pub fn ok_or_not_found<T>(result: Result<T, IoErrorKind>) -> (tolerated: bool)
    ensures
        tolerated == (result is Ok || result == Err::<T, IoErrorKind>(IoErrorKind::NotFound)),
{
    match result {
        Ok(_) => true,
        Err(kind) => kind == IoErrorKind::NotFound,
    }
}

/// The lint groups checked when no lint filter is given: `all` and
/// `pedantic`, or every group with `--all-lints`.
pub open spec fn lint_groups(all_lints: bool) -> Seq<Seq<char>> {
    if all_lints {
        seq!["clippy::all"@, "clippy::cargo"@, "clippy::nursery"@, "clippy::pedantic"@, "clippy::restriction"@]
    } else {
        seq!["clippy::all"@, "clippy::pedantic"@]
    }
}

/// `--force-warn=<lint>` for each lint or group.
pub open spec fn force_warn(lints: Seq<Seq<char>>) -> Seq<Seq<char>> {
    lints.map_values(|l: Seq<char>| "--force-warn="@ + l)
}

/// The arguments passed to clippy for each crate: every lint of the filter
/// (or of the default groups when the filter is empty) forced to warn, the
/// remapping of source paths under `target/lintcheck`, and `--no-deps` when
/// a single package is checked.
pub open spec fn spec_clippy_args(lint_filter: Seq<Seq<char>>, all_lints: bool, only: bool) -> Seq<Seq<char>> {
    force_warn(if lint_filter.len() == 0 { lint_groups(all_lints) } else { lint_filter })
        + seq!["--remap-path-prefix==target/lintcheck"@]
        + if only { seq!["--no-deps"@] } else { Seq::empty() }
}

/// The clippy arguments hold `--no-deps` exactly when a single package is
/// checked (`--only`), whatever the lint filter, and then as their last
/// argument; they always remap the source paths; and a non-empty filter has
/// each of its lints forced to warn, in place of the default groups.
pub proof fn lemma_clippy_args_laws(lint_filter: Seq<Seq<char>>, all_lints: bool, only: bool)
    ensures
        spec_clippy_args(lint_filter, all_lints, only).contains("--no-deps"@) <==> only,
        only ==> spec_clippy_args(lint_filter, all_lints, only).last() == "--no-deps"@,
        spec_clippy_args(lint_filter, all_lints, only).contains("--remap-path-prefix==target/lintcheck"@),
        forall|k: int| 0 <= k < lint_filter.len() ==> spec_clippy_args(lint_filter, all_lints, only).contains(
            "--force-warn="@ + #[trigger] lint_filter[k],
        ),
        spec_clippy_args(lint_filter, all_lints, only).len() == (if lint_filter.len() == 0 {
            lint_groups(all_lints).len()
        } else {
            lint_filter.len()
        }) + 1 + (if only { 1int } else { 0int }),
{
    reveal_strlit("--no-deps");
    reveal_strlit("--force-warn=");
    reveal_strlit("--remap-path-prefix==target/lintcheck");
    let lints = if lint_filter.len() == 0 { lint_groups(all_lints) } else { lint_filter };
    let forced = force_warn(lints);
    let args = spec_clippy_args(lint_filter, all_lints, only);
    let remap = "--remap-path-prefix==target/lintcheck"@;
    assert(args[forced.len() as int] == remap);
    if only {
        assert(args[args.len() - 1] == "--no-deps"@);
    } else {
        assert forall|i: int| 0 <= i < args.len() implies args[i] != "--no-deps"@ by {
            if i < forced.len() {
                assert(args[i] == "--force-warn="@ + lints[i]);
                assert(args[i][2] == 'f');
            } else {
                assert(args[i] == remap);
                assert(remap[2] == 'r');
            }
            assert("--no-deps"@[2] == 'n');
        }
    }
    if lint_filter.len() > 0 {
        assert forall|k: int| 0 <= k < lint_filter.len() implies args.contains("--force-warn="@ + #[trigger] lint_filter[k]) by {
            assert(args[k] == "--force-warn="@ + lint_filter[k]);
        }
    }
}

/// Appends `--force-warn=<lint>` to `args` for each of `lints`.
fn push_force_warn(args: &mut Vec<String>, lints: &Vec<String>)
    ensures
        views(final(args)@) == views(old(args)@) + force_warn(views(lints@)),
{
    let ghost start = views(args@);
    let mut i: usize = 0;
    while i < lints.len()
        invariant
            0 <= i <= lints@.len(),
            views(args@) == start + force_warn(views(lints@)).take(i as int),
        decreases lints.len() - i,
    {
        let mut arg = String::from_str("--force-warn=");
        arg.append(lints[i].as_str());
        proof {
            lemma_views_push(args@, arg);
        }
        args.push(arg);
        assert(force_warn(views(lints@)).take(i + 1) == force_warn(views(lints@)).take(i as int).push(
            "--force-warn="@ + lints@[i as int]@,
        ));
        assert(views(args@) == start + force_warn(views(lints@)).take(i + 1));
        i = i + 1;
    }
    assert(force_warn(views(lints@)).take(lints@.len() as int) == force_warn(views(lints@)));
}

/// The names of the default lint groups.
fn default_groups(all_lints: bool) -> (groups: Vec<String>)
    ensures
        views(groups@) == lint_groups(all_lints),
{
    let mut groups: Vec<String> = Vec::new();
    groups.push(String::from_str("clippy::all"));
    if all_lints {
        groups.push(String::from_str("clippy::cargo"));
        groups.push(String::from_str("clippy::nursery"));
    }
    groups.push(String::from_str("clippy::pedantic"));
    if all_lints {
        groups.push(String::from_str("clippy::restriction"));
    }
    assert(views(groups@) =~= lint_groups(all_lints));
    groups
}

/// The arguments passed to clippy for each crate.
pub fn clippy_args(lint_filter: &Vec<String>, all_lints: bool, only: bool) -> (args: Vec<String>)
    ensures
        views(args@) == spec_clippy_args(views(lint_filter@), all_lints, only),
{
    let mut args: Vec<String> = Vec::new();
    if lint_filter.len() == 0 {
        let groups = default_groups(all_lints);
        push_force_warn(&mut args, &groups);
    } else {
        push_force_warn(&mut args, lint_filter);
    }
    let ghost forced = views(args@);
    args.push(String::from_str("--remap-path-prefix==target/lintcheck"));
    if only {
        args.push(String::from_str("--no-deps"));
    }
    assert(views(args@) =~= spec_clippy_args(views(lint_filter@), all_lints, only));
    args
}

/// The parts joined into one text, with `sep` between two parts.
pub open spec fn join_with(parts: Seq<Seq<char>>, sep: Seq<char>) -> Seq<char>
    decreases parts.len(),
{
    if parts.len() == 0 {
        Seq::empty()
    } else if parts.len() == 1 {
        parts[0]
    } else {
        join_with(parts.drop_last(), sep) + sep + parts.last()
    }
}

/// Joining two non-empty lists one after the other is joining each and
/// putting one separator between them: the separator stands between any
/// two neighbouring parts and nowhere else, and a single part is kept as is.
pub proof fn lemma_join_with_append(a: Seq<Seq<char>>, b: Seq<Seq<char>>, sep: Seq<char>)
    requires
        a.len() > 0,
        b.len() > 0,
    ensures
        join_with(a + b, sep) == join_with(a, sep) + sep + join_with(b, sep),
        join_with(seq![a[0]], sep) == a[0],
    decreases b.len(),
{
    if b.len() == 1 {
        assert((a + b).drop_last() == a);
        assert((a + b).last() == b[0]);
        assert(join_with(b, sep) == b[0]);
    } else {
        assert((a + b).drop_last() == a + b.drop_last());
        assert((a + b).last() == b.last());
        lemma_join_with_append(a, b.drop_last(), sep);
        assert(join_with(b, sep) == join_with(b.drop_last(), sep) + sep + b.last());
    }
}

/// The parts joined into one text, with `sep` between two parts.
pub fn join_strings(parts: &Vec<String>, sep: &str) -> (joined: String)
    ensures
        joined@ == join_with(views(parts@), sep@),
{
    let mut joined = String::new();
    let mut i: usize = 0;
    while i < parts.len()
        invariant
            0 <= i <= parts@.len(),
            joined@ == join_with(views(parts@).take(i as int), sep@),
        decreases parts.len() - i,
    {
        assert(views(parts@).take(i + 1).drop_last() == views(parts@).take(i as int));
        assert(views(parts@).take(i + 1).last() == parts@[i as int]@);
        if i > 0 {
            joined.append(sep);
        }
        joined.append(parts[i].as_str());
        i = i + 1;
    }
    assert(views(parts@).take(parts@.len() as int) == views(parts@));
    joined
}

/// The separator between the arguments that the wrapper passes to clippy
/// in one environment variable.
pub open spec fn clippy_args_separator() -> Seq<char> {
    "__CLIPPY_HACKERY__"@
}

/// A package that cargo resolved: its name and its version as printed.
pub struct PackageInfo {
    pub name: String,
    pub version: String,
}

/// `-p<name>@<version>`: the argument that selects a package for cargo.
pub open spec fn spec_package_arg(name: Seq<char>, version: Seq<char>) -> Seq<char> {
    "-p"@ + name + "@"@ + version
}

/// The argument that selects `package` for cargo.
pub fn package_arg(package: &PackageInfo) -> (arg: String)
    ensures
        arg@ == spec_package_arg(package.name@, package.version@),
{
    let mut arg = String::from_str("-p");
    arg.append(package.name.as_str());
    arg.append("@");
    arg.append(package.version.as_str());
    arg
}

/// The index of the first of `ids` equal to `id`, if any.
pub open spec fn first_index(ids: Seq<Seq<char>>, id: Seq<char>) -> Option<int>
    decreases ids.len(),
{
    if ids.len() == 0 {
        None
    } else {
        match first_index(ids.drop_last(), id) {
            Some(i) => Some(i),
            None => if ids.last() == id { Some(ids.len() - 1) } else { None },
        }
    }
}

/// A prefix that holds `id` has the same first one as the whole list.
proof fn lemma_first_index_prefix(ids: Seq<Seq<char>>, id: Seq<char>, n: int)
    requires
        0 <= n <= ids.len(),
        first_index(ids.take(n), id) is Some,
    ensures
        first_index(ids, id) == first_index(ids.take(n), id),
    decreases ids.len() - n,
{
    if n < ids.len() {
        assert(ids.take(n + 1).drop_last() == ids.take(n));
        lemma_first_index_prefix(ids, id, n + 1);
    } else {
        assert(ids.take(n) == ids);
    }
}

/// The first index of `id` is an index of the list, holding `id`.
proof fn lemma_first_index_bounds(ids: Seq<Seq<char>>, id: Seq<char>)
    ensures
        first_index(ids, id) matches Some(i) ==> 0 <= i < ids.len() && ids[i] == id,
    decreases ids.len(),
{
    if ids.len() > 0 {
        lemma_first_index_bounds(ids.drop_last(), id);
    }
}

/// The names of `packages`, in order.
pub open spec fn package_names(packages: Seq<PackageInfo>) -> Seq<Seq<char>> {
    packages.map_values(|p: PackageInfo| p.name@)
}

/// The index of the first package named `name`, if any.
pub open spec fn first_named(packages: Seq<PackageInfo>, name: Seq<char>) -> Option<int> {
    first_index(package_names(packages), name)
}

/// The index of the first package named `name`.
pub fn find_package(packages: &Vec<PackageInfo>, name: &str) -> (found: Option<usize>)
    ensures
        match found {
            Some(i) => first_named(packages@, name@) == Some(i as int),
            None => first_named(packages@, name@) is None,
        },
{
    let ghost names = package_names(packages@);
    let target = String::from_str(name);
    let mut i: usize = 0;
    while i < packages.len()
        invariant
            0 <= i <= packages@.len(),
            names == package_names(packages@),
            target@ == name@,
            first_index(names.take(i as int), name@) is None,
        decreases packages.len() - i,
    {
        assert(names.take(i + 1).drop_last() == names.take(i as int));
        if packages[i].name == target {
            proof {
                lemma_first_index_prefix(names, name@, i as int + 1);
            }
            return Some(i);
        }
        i = i + 1;
    }
    assert(names.take(packages@.len() as int) == names);
    None
}

/// The package arguments of `cargo check`: `-p<name>@<version>` for each
/// package.
pub open spec fn package_args(packages: Seq<PackageInfo>) -> Seq<Seq<char>> {
    packages.map_values(|p: PackageInfo| spec_package_arg(p.name@, p.version@))
}

/// How lintcheck runs `cargo check` over the workspace of sources.
pub struct CargoCheck {
    /// The arguments of `cargo`.
    pub cargo_args: Vec<String>,
    /// The clippy arguments, joined for the `CLIPPY_ARGS` variable.
    pub clippy_args: String,
}

/// The arguments of `cargo check`: the fixed flags, the package named by
/// `--only` (`only_index`), and every package listed in the sources when
/// recursive.
pub open spec fn spec_cargo_args(specified: Seq<PackageInfo>, only_index: Option<int>, recursive: bool) -> Seq<Seq<char>> {
    seq!["check"@, "-Zavoid-dev-deps"@, "--target-dir=build"@] + match only_index {
        Some(i) => seq![spec_package_arg(specified[i].name@, specified[i].version@)],
        None => Seq::empty(),
    } + if recursive { package_args(specified) } else { Seq::empty() }
}

/// `cargo check` always runs with its fixed flags first; it selects the
/// `--only` package exactly when one is named, right after them; and in
/// recursive mode it selects every listed package, in order, at the end.
pub proof fn lemma_cargo_args_laws(specified: Seq<PackageInfo>, only_index: Option<int>, recursive: bool)
    ensures
        spec_cargo_args(specified, only_index, recursive).subrange(0, 3) == seq![
            "check"@,
            "-Zavoid-dev-deps"@,
            "--target-dir=build"@,
        ],
        spec_cargo_args(specified, only_index, recursive).len() == 3 + (if only_index is Some { 1int } else { 0int })
            + (if recursive { specified.len() as int } else { 0int }),
        only_index matches Some(i) ==> spec_cargo_args(specified, only_index, recursive)[3] == spec_package_arg(
            specified[i].name@,
            specified[i].version@,
        ),
        recursive ==> forall|k: int| 0 <= k < specified.len() ==> spec_cargo_args(specified, only_index, recursive)[
            spec_cargo_args(specified, only_index, recursive).len() - specified.len() + k]
            == spec_package_arg(#[trigger] specified[k].name@, specified[k].version@),
        !recursive && only_index is None ==> spec_cargo_args(specified, only_index, recursive).len() == 3,
{
    let args = spec_cargo_args(specified, only_index, recursive);
    assert(args.subrange(0, 3) =~= seq!["check"@, "-Zavoid-dev-deps"@, "--target-dir=build"@]);
}

/// The `cargo check` run over the workspace of sources: `specified` are the
/// packages listed in the sources file; `only` restricts the run to one of
/// them. `None` when no listed package is named `only`.
pub fn cargo_check(
    specified: &Vec<PackageInfo>,
    lint_filter: &Vec<String>,
    all_lints: bool,
    only: Option<&str>,
    recursive: bool,
) -> (check: Option<CargoCheck>)
    ensures
        match only {
            Some(name) => first_named(specified@, name@) is None <==> check is None,
            None => check is Some,
        },
        check matches Some(c) ==> {
            &&& views(c.cargo_args@) == spec_cargo_args(
                specified@,
                match only {
                    Some(name) => first_named(specified@, name@),
                    None => None,
                },
                recursive,
            )
            &&& c.clippy_args@ == join_with(
                spec_clippy_args(views(lint_filter@), all_lints, only is Some),
                clippy_args_separator(),
            )
        },
{
    let mut cargo_args: Vec<String> = Vec::new();
    cargo_args.push(String::from_str("check"));
    cargo_args.push(String::from_str("-Zavoid-dev-deps"));
    cargo_args.push(String::from_str("--target-dir=build"));
    assert(views(cargo_args@) =~= seq!["check"@, "-Zavoid-dev-deps"@, "--target-dir=build"@]);
    let ghost fixed = views(cargo_args@);
    let ghost only_index: Option<int> = match only {
        Some(name) => first_named(specified@, name@),
        None => None,
    };
    match only {
        Some(name) => match find_package(specified, name) {
            Some(i) => {
                assert(only_index == Some(i as int));
                proof {
                    lemma_first_index_bounds(package_names(specified@), name@);
                }
                let arg = package_arg(&specified[i]);
                proof {
                    lemma_views_push(cargo_args@, arg);
                }
                cargo_args.push(arg);
                assert(views(cargo_args@) == fixed.push(arg@));
                assert(views(cargo_args@) =~= fixed + seq![spec_package_arg(
                    specified@[only_index->0].name@,
                    specified@[only_index->0].version@,
                )]);
            },
            None => return None,
        },
        None => {
            assert(views(cargo_args@) =~= fixed + Seq::<Seq<char>>::empty());
        },
    }
    let ghost with_only = views(cargo_args@);
    if recursive {
        let mut i: usize = 0;
        while i < specified.len()
            invariant
                0 <= i <= specified@.len(),
                views(cargo_args@) == with_only + package_args(specified@).take(i as int),
            decreases specified.len() - i,
        {
            let arg = package_arg(&specified[i]);
            proof {
                lemma_views_push(cargo_args@, arg);
            }
            cargo_args.push(arg);
            assert(package_args(specified@).take(i + 1) == package_args(specified@).take(i as int).push(
                spec_package_arg(specified@[i as int].name@, specified@[i as int].version@),
            ));
            i = i + 1;
        }
        assert(package_args(specified@).take(specified@.len() as int) == package_args(specified@));
    }
    assert(views(cargo_args@) =~= spec_cargo_args(specified@, only_index, recursive));
    let args = clippy_args(lint_filter, all_lints, only.is_some());
    let joined = join_strings(&args, "__CLIPPY_HACKERY__");
    Some(CargoCheck { cargo_args, clippy_args: joined })
}

/// Whether `semver::Version::parse` accepts `version`.
pub uninterp spec fn semver_parses(version: Seq<char>) -> bool;

/// Whether the version parsed from `a` is at most the version parsed from
/// `b` in the order of `semver::Version` (semantic-versioning precedence,
/// then build metadata).
pub uninterp spec fn semver_le(a: Seq<char>, b: Seq<char>) -> bool;

/// Calls `semver::Version::parse` on both versions and compares the results
/// with `<=`. `None` exactly when one of them does not parse. The order is
/// named, not described; of it the contract states only what `Ord` asks of
/// every implementation, and `semver::Version`'s derived one (over major,
/// minor, patch, pre-release and build metadata, each totally ordered) meets:
/// it is reflexive, total (when `a <= b` fails, `b <= a` holds) and
/// transitive (every parsed version at most `a` is at most `b` when
/// `a <= b`).
#[verifier::external_body]
fn version_le(a: &str, b: &str) -> (ordered: Option<bool>)
    ensures
        ordered is Some <==> (semver_parses(a@) && semver_parses(b@)),
        ordered matches Some(x) ==> x == semver_le(a@, b@),
        (semver_parses(a@) && a@ == b@) ==> ordered == Some(true),
        ordered == Some(false) ==> semver_le(b@, a@),
        ordered == Some(true) ==> forall|x: Seq<char>|
            semver_parses(x) && #[trigger] semver_le(x, a@) ==> semver_le(x, b@),
{
    match (semver::Version::parse(a), semver::Version::parse(b)) {
        (Ok(x), Ok(y)) => Some(x <= y),
        _ => None,
    }
}

/// The newest package of each name among the first `n` of `packages`, by
/// index, leaving out ignored names. Of two packages with the same name and
/// equal versions, the later one is kept. `None` when two versions of one
/// name have to be compared and one of them does not parse.
pub open spec fn newest_by_name(packages: Seq<PackageInfo>, ignore: Set<Seq<char>>, n: int) -> Option<Map<Seq<char>, int>>
    decreases n,
{
    if n <= 0 {
        Some(Map::empty())
    } else {
        match newest_by_name(packages, ignore, n - 1) {
            None => None,
            Some(m) => {
                let p = packages[n - 1];
                if ignore.contains(p.name@) {
                    Some(m)
                } else if m.dom().contains(p.name@) {
                    let prev = packages[m[p.name@]].version@;
                    if semver_parses(prev) && semver_parses(p.version@) {
                        if semver_le(prev, p.version@) {
                            Some(m.insert(p.name@, n - 1))
                        } else {
                            Some(m)
                        }
                    } else {
                        None
                    }
                } else {
                    Some(m.insert(p.name@, n - 1))
                }
            },
        }
    }
}

/// Each of the first `n` packages whose name is not ignored is the package
/// `m` keeps for its name, or a parsed version no newer than that one.
pub open spec fn no_newer_than_kept(packages: Seq<PackageInfo>, ignore: Set<Seq<char>>, m: Map<Seq<char>, int>, n: int) -> bool {
    forall|j: int| 0 <= j < n && !ignore.contains(#[trigger] packages[j].name@) ==> {
        let kept = m[packages[j].name@];
        &&& m.dom().contains(packages[j].name@)
        &&& (j == kept || (semver_parses(packages[j].version@) && semver_le(packages[j].version@, packages[kept].version@)))
    }
}

/// `m` where the first `k` of the `specified` packages replace the package
/// of the same name.
pub open spec fn with_specified(packages: Seq<PackageInfo>, m: Map<Seq<char>, int>, specified: Seq<usize>, k: int) -> Map<Seq<char>, int>
    decreases k,
{
    if k <= 0 {
        m
    } else {
        with_specified(packages, m, specified, k - 1).insert(
            packages[specified[k - 1] as int].name@,
            specified[k - 1] as int,
        )
    }
}

/// The packages checked in recursive mode, by name: the newest version of
/// each package that is not ignored, except that the packages listed in the
/// sources file are always the ones chosen, and never the root package.
pub open spec fn spec_recursive_packages(
    packages: Seq<PackageInfo>,
    ignore: Set<Seq<char>>,
    specified: Seq<usize>,
    root: Seq<char>,
) -> Option<Map<Seq<char>, int>> {
    match newest_by_name(packages, ignore, packages.len() as int) {
        Some(m) => Some(with_specified(packages, m, specified, specified.len() as int).remove(root)),
        None => None,
    }
}

/// `entries` lists, once per name, the package index that `m` holds for
/// that name.
pub open spec fn lists_map(packages: Seq<PackageInfo>, entries: Seq<usize>, m: Map<Seq<char>, int>) -> bool {
    &&& forall|k: int| 0 <= k < entries.len() ==> #[trigger] entries[k] < packages.len()
    &&& forall|k: int, l: int| 0 <= k < l < entries.len() ==> packages[entries[k] as int].name@ != packages[entries[l] as int].name@
    &&& forall|k: int| 0 <= k < entries.len() ==> m.dom().contains(#[trigger] packages[entries[k] as int].name@)
        && m[packages[entries[k] as int].name@] == entries[k] as int
    &&& forall|name: Seq<char>| #[trigger] m.dom().contains(name) ==> exists|k: int| 0 <= k < entries.len()
        && #[trigger] packages[entries[k] as int].name@ == name
}

/// The position in `entries` of the package named `name`, if any.
fn find_entry(packages: &Vec<PackageInfo>, entries: &Vec<usize>, name: &String) -> (found: Option<usize>)
    requires
        forall|k: int| 0 <= k < entries@.len() ==> #[trigger] entries@[k] < packages@.len(),
    ensures
        match found {
            Some(k) => k < entries@.len() && packages@[entries@[k as int] as int].name@ == name@,
            None => forall|k: int| 0 <= k < entries@.len() ==> packages@[#[trigger] entries@[k] as int].name@ != name@,
        },
{
    let mut k: usize = 0;
    while k < entries.len()
        invariant
            0 <= k <= entries@.len(),
            forall|j: int| 0 <= j < entries@.len() ==> #[trigger] entries@[j] < packages@.len(),
            forall|j: int| 0 <= j < k ==> packages@[#[trigger] entries@[j] as int].name@ != name@,
        decreases entries.len() - k,
    {
        if packages[entries[k]].name == *name {
            return Some(k);
        }
        k = k + 1;
    }
    None
}

/// Puts `index` in place of the package with the same name, or adds it.
fn set_entry(packages: &Vec<PackageInfo>, entries: &mut Vec<usize>, index: usize, Ghost(m): Ghost<Map<Seq<char>, int>>)
    requires
        index < packages@.len(),
        lists_map(packages@, old(entries)@, m),
    ensures
        lists_map(packages@, final(entries)@, m.insert(packages@[index as int].name@, index as int)),
{
    let ghost name = packages@[index as int].name@;
    let ghost m2 = m.insert(name, index as int);
    match find_entry(packages, entries, &packages[index].name) {
        Some(k) => {
            entries.set(k, index);
            assert forall|nm: Seq<char>| #[trigger] m2.dom().contains(nm) implies exists|j: int| 0 <= j < entries@.len()
                && #[trigger] packages@[entries@[j] as int].name@ == nm by {
                if nm == name {
                    assert(packages@[entries@[k as int] as int].name@ == nm);
                } else {
                    let j = choose|j: int| 0 <= j < old(entries)@.len() && #[trigger] packages@[old(entries)@[j] as int].name@ == nm;
                    assert(packages@[entries@[j] as int].name@ == nm);
                }
            }
        },
        None => {
            entries.push(index);
            assert forall|nm: Seq<char>| #[trigger] m2.dom().contains(nm) implies exists|j: int| 0 <= j < entries@.len()
                && #[trigger] packages@[entries@[j] as int].name@ == nm by {
                if nm == name {
                    assert(packages@[entries@[entries@.len() - 1] as int].name@ == nm);
                } else {
                    let j = choose|j: int| 0 <= j < old(entries)@.len() && #[trigger] packages@[old(entries)@[j] as int].name@ == nm;
                    assert(packages@[entries@[j] as int].name@ == nm);
                }
            }
        },
    }
}

/// The packages that recursive mode checks, as indices into `packages`, one
/// per name: the newest version of each package whose name is not ignored,
/// the packages listed in the sources file (`specified`) in place of any
/// other of the same name, and not the root package `root`. `None` when two
/// versions of one name have to be compared and one does not parse.
pub fn recursive_packages(
    packages: &Vec<PackageInfo>,
    ignore: &RecursiveOptions,
    specified: &Vec<usize>,
    root: &str,
) -> (chosen: Option<Vec<usize>>)
    requires
        forall|k: int| 0 <= k < specified@.len() ==> #[trigger] specified@[k] < packages@.len(),
    ensures
        match chosen {
            None => spec_recursive_packages(packages@, ignore@, specified@, root@) is None,
            Some(c) => spec_recursive_packages(packages@, ignore@, specified@, root@) matches Some(m)
                && lists_map(packages@, c@, m) && sorted_by_name(packages@, c@),
        },
        chosen is Some ==> (newest_by_name(packages@, ignore@, packages@.len() as int) matches Some(newest)
            && no_newer_than_kept(packages@, ignore@, newest, packages@.len() as int)),
{
    let mut entries: Vec<usize> = Vec::new();
    let ghost mut m: Map<Seq<char>, int> = Map::empty();
    let mut i: usize = 0;
    while i < packages.len()
        invariant
            0 <= i <= packages@.len(),
            newest_by_name(packages@, ignore@, i as int) == Some(m),
            lists_map(packages@, entries@, m),
            no_newer_than_kept(packages@, ignore@, m, i as int),
        decreases packages.len() - i,
    {
        let p = &packages[i];
        if ignore.contains(p.name.as_str()) {
        } else {
            match find_entry(packages, &entries, &p.name) {
                Some(k) => {
                    let prev = entries[k];
                    match version_le(packages[prev].version.as_str(), p.version.as_str()) {
                        None => {
                            proof {
                                lemma_newest_stays_none(packages@, ignore@, i as int + 1, packages@.len() as int);
                            }
                            return None;
                        },
                        Some(true) => {
                            set_entry(packages, &mut entries, i, Ghost(m));
                            proof {
                                let ghost old_m = m;
                                m = m.insert(p.name@, i as int);
                                assert(old_m[p.name@] == prev as int);
                                assert forall|j: int| 0 <= j < i + 1 && !ignore@.contains(#[trigger] packages@[j].name@) implies {
                                    let kept = m[packages@[j].name@];
                                    &&& m.dom().contains(packages@[j].name@)
                                    &&& (j == kept || (semver_parses(packages@[j].version@) && semver_le(packages@[j].version@, packages@[kept].version@)))
                                } by {
                                    if j < i && packages@[j].name@ == p.name@ {
                                        if j != prev as int {
                                            assert(semver_le(packages@[j].version@, packages@[prev as int].version@));
                                        }
                                    }
                                }
                            }
                        },
                        Some(false) => {
                            proof {
                                assert(m[p.name@] == prev as int);
                                assert forall|j: int| 0 <= j < i + 1 && !ignore@.contains(#[trigger] packages@[j].name@) implies {
                                    let kept = m[packages@[j].name@];
                                    &&& m.dom().contains(packages@[j].name@)
                                    &&& (j == kept || (semver_parses(packages@[j].version@) && semver_le(packages@[j].version@, packages@[kept].version@)))
                                } by {
                                    if j == i as int {
                                        assert(semver_le(packages@[i as int].version@, packages@[prev as int].version@));
                                    }
                                }
                            }
                        },
                    }
                },
                None => {
                    assert(!m.dom().contains(p.name@));
                    set_entry(packages, &mut entries, i, Ghost(m));
                    proof {
                        let ghost old_m = m;
                        m = m.insert(p.name@, i as int);
                        assert forall|j: int| 0 <= j < i + 1 && !ignore@.contains(#[trigger] packages@[j].name@) implies {
                            let kept = m[packages@[j].name@];
                            &&& m.dom().contains(packages@[j].name@)
                            &&& (j == kept || (semver_parses(packages@[j].version@) && semver_le(packages@[j].version@, packages@[kept].version@)))
                        } by {
                            if j < i {
                                assert(old_m.dom().contains(packages@[j].name@));
                            }
                        }
                    }
                },
            }
        }
        i = i + 1;
    }
    let ghost newest = m;
    assert(newest_by_name(packages@, ignore@, packages@.len() as int) == Some(newest));
    assert(no_newer_than_kept(packages@, ignore@, newest, packages@.len() as int));
    let mut k: usize = 0;
    while k < specified.len()
        invariant
            0 <= k <= specified@.len(),
            forall|j: int| 0 <= j < specified@.len() ==> #[trigger] specified@[j] < packages@.len(),
            m == with_specified(packages@, newest, specified@, k as int),
            lists_map(packages@, entries@, m),
        decreases specified.len() - k,
    {
        set_entry(packages, &mut entries, specified[k], Ghost(m));
        proof {
            m = m.insert(packages@[specified@[k as int] as int].name@, specified@[k as int] as int);
        }
        k = k + 1;
    }
    let root_name = String::from_str(root);
    match find_entry(packages, &entries, &root_name) {
        Some(k) => {
            let ghost before = entries@;
            entries.remove(k);
            proof {
                lemma_remove_entry(packages@, before, m, k as int);
            }
        },
        None => {
            assert(m.remove(root@) =~= m);
        },
    }
    let sorted = sort_by_name(packages, &entries, Ghost(m.remove(root@)));
    Some(sorted)
}

/// `a` comes before `b` in lexicographic order, comparing from index `i`.
pub open spec fn lex_lt_from(a: Seq<u8>, b: Seq<u8>, i: int) -> bool
    decreases b.len() - i,
{
    if i < 0 || i >= b.len() {
        false
    } else if i >= a.len() {
        true
    } else if a[i] < b[i] {
        true
    } else if a[i] > b[i] {
        false
    } else {
        lex_lt_from(a, b, i + 1)
    }
}

/// `a` comes strictly before `b` in lexicographic byte order: the order of
/// `str`.
pub open spec fn lex_lt(a: Seq<u8>, b: Seq<u8>) -> bool {
    lex_lt_from(a, b, 0)
}

/// Lexicographic order is transitive.
proof fn lemma_lex_lt_transitive(a: Seq<u8>, b: Seq<u8>, c: Seq<u8>, i: int)
    requires
        0 <= i,
        lex_lt_from(a, b, i),
        lex_lt_from(b, c, i),
    ensures
        lex_lt_from(a, c, i),
    decreases c.len() - i,
{
    if i < a.len() && i < b.len() && i < c.len() && a[i] == b[i] && b[i] == c[i] {
        lemma_lex_lt_transitive(a, b, c, i + 1);
    }
}

/// No byte string comes before itself.
proof fn lemma_lex_lt_irreflexive(a: Seq<u8>, i: int)
    requires
        0 <= i,
    ensures
        !lex_lt_from(a, a, i),
    decreases a.len() - i,
{
    if i < a.len() {
        lemma_lex_lt_irreflexive(a, i + 1);
    }
}

/// Whether `a` comes strictly before `b` in lexicographic byte order.
fn bytes_lt(a: &[u8], b: &[u8]) -> (lt: bool)
    ensures
        lt == lex_lt(a@, b@),
{
    let mut i: usize = 0;
    while i < a.len() && i < b.len() && a[i] == b[i]
        invariant
            0 <= i <= a@.len(),
            i <= b@.len(),
            lex_lt_from(a@, b@, i as int) == lex_lt(a@, b@),
        decreases a.len() - i,
    {
        i = i + 1;
    }
    if i >= b.len() {
        false
    } else if i >= a.len() {
        true
    } else {
        a[i] < b[i]
    }
}

/// The sort key of a package: the bytes of its name.
pub open spec fn name_key(p: PackageInfo) -> Seq<u8> {
    vstd::utf8::encode_utf8(p.name@)
}

/// The packages of `entries` come in the order of their names.
pub open spec fn sorted_by_name(packages: Seq<PackageInfo>, entries: Seq<usize>) -> bool {
    forall|k: int, l: int|
        0 <= k < l < entries.len() ==> !lex_lt(
            name_key(packages[entries[l] as int]),
            name_key(packages[entries[k] as int]),
        )
}

/// `entries` put in the order of the packages' names.
fn sort_by_name(packages: &Vec<PackageInfo>, entries: &Vec<usize>, Ghost(m): Ghost<Map<Seq<char>, int>>) -> (sorted: Vec<usize>)
    requires
        lists_map(packages@, entries@, m),
    ensures
        lists_map(packages@, sorted@, m),
        sorted_by_name(packages@, sorted@),
{
    let mut sorted: Vec<usize> = Vec::new();
    let mut i: usize = 0;
    while i < entries.len()
        invariant
            0 <= i <= entries@.len(),
            lists_map(packages@, entries@, m),
            sorted_by_name(packages@, sorted@),
            forall|k: int| #![trigger sorted@[k]] 0 <= k < sorted@.len() ==> exists|j: int| 0 <= j < i && #[trigger] entries@[j] == sorted@[k],
            forall|j: int| 0 <= j < i ==> #[trigger] sorted@.contains(entries@[j]),
            forall|k: int, l: int| 0 <= k < l < sorted@.len() ==> packages@[sorted@[k] as int].name@ != packages@[sorted@[l] as int].name@,
        decreases entries.len() - i,
    {
        let e = entries[i];
        let key = packages[e].name.as_str().as_bytes();
        let mut p: usize = 0;
        #[verifier::loop_isolation(false)]
        while p < sorted.len() && !bytes_lt(key, packages[sorted[p]].name.as_str().as_bytes())
            invariant
                0 <= p <= sorted@.len(),
                key@ == name_key(packages@[e as int]),
                e == entries@[i as int],
                i < entries@.len(),
                forall|k: int| 0 <= k < p ==> !lex_lt(key@, name_key(packages@[sorted@[k] as int])),
            decreases sorted.len() - p,
        {
            p = p + 1;
        }
        let ghost before = sorted@;
        proof {
            assert forall|k: int| 0 <= k < before.len() implies packages@[before[k] as int].name@ != packages@[e as int].name@ by {
                let j = choose|j: int| 0 <= j < i && #[trigger] entries@[j] == before[k];
                assert(entries@[j] == before[k]);
            }
            if p < before.len() {
                assert(lex_lt(key@, name_key(packages@[before[p as int] as int])));
                assert forall|l: int| p <= l < before.len() implies !lex_lt(
                    name_key(packages@[before[l] as int]),
                    key@,
                ) by {
                    if lex_lt(name_key(packages@[before[l] as int]), key@) {
                        if l > p {
                            assert(!lex_lt(name_key(packages@[before[l] as int]), name_key(packages@[before[p as int] as int])));
                        }
                        lemma_lex_lt_transitive(
                            name_key(packages@[before[l] as int]),
                            key@,
                            name_key(packages@[before[p as int] as int]),
                            0,
                        );
                        lemma_lex_lt_irreflexive(name_key(packages@[before[p as int] as int]), 0);
                    }
                }
            }
        }
        sorted.insert(p, e);
        proof {
            assert(sorted@ == before.insert(p as int, e));
            assert forall|k: int, l: int| 0 <= k < l < sorted@.len() implies !lex_lt(
                name_key(packages@[sorted@[l] as int]),
                name_key(packages@[sorted@[k] as int]),
            ) by {
                if k < p && l < p {
                    assert(sorted@[k] == before[k] && sorted@[l] == before[l]);
                } else if k < p && l == p {
                    assert(sorted@[k] == before[k]);
                } else if k < p {
                    assert(sorted@[k] == before[k] && sorted@[l] == before[l - 1]);
                    if lex_lt(name_key(packages@[before[l - 1] as int]), name_key(packages@[before[k] as int])) {
                    }
                } else if k == p {
                    assert(sorted@[l] == before[l - 1]);
                } else {
                    assert(sorted@[k] == before[k - 1] && sorted@[l] == before[l - 1]);
                }
            }
            assert forall|k: int| #![trigger sorted@[k]] 0 <= k < sorted@.len() implies exists|j: int| 0 <= j < i + 1 && #[trigger] entries@[j] == sorted@[k] by {
                if k < p {
                    assert(sorted@[k] == before[k]);
                    let j = choose|j: int| 0 <= j < i && #[trigger] entries@[j] == before[k];
                    assert(entries@[j] == sorted@[k]);
                } else if k == p {
                    assert(entries@[i as int] == sorted@[k]);
                } else {
                    assert(sorted@[k] == before[k - 1]);
                    let j = choose|j: int| 0 <= j < i && #[trigger] entries@[j] == before[k - 1];
                    assert(entries@[j] == sorted@[k]);
                }
            }
            assert forall|j: int| 0 <= j < i + 1 implies #[trigger] sorted@.contains(entries@[j]) by {
                if j < i {
                    assert(before.contains(entries@[j]));
                    let k = choose|k: int| 0 <= k < before.len() && before[k] == entries@[j];
                    if k < p {
                        assert(sorted@[k] == entries@[j]);
                    } else {
                        assert(sorted@[k + 1] == entries@[j]);
                    }
                } else {
                    assert(sorted@[p as int] == entries@[j]);
                }
            }
            assert forall|k: int, l: int| 0 <= k < l < sorted@.len() implies packages@[sorted@[k] as int].name@ != packages@[sorted@[l] as int].name@ by {
                if k < p && l < p {
                    assert(sorted@[k] == before[k] && sorted@[l] == before[l]);
                } else if k < p && l == p {
                    assert(sorted@[k] == before[k]);
                } else if k < p {
                    assert(sorted@[k] == before[k] && sorted@[l] == before[l - 1]);
                } else if k == p {
                    assert(sorted@[l] == before[l - 1]);
                } else {
                    assert(sorted@[k] == before[k - 1] && sorted@[l] == before[l - 1]);
                }
            }
        }
        i = i + 1;
    }
    proof {
        assert forall|k: int| 0 <= k < sorted@.len() implies #[trigger] sorted@[k] < packages@.len() && m.dom().contains(packages@[sorted@[k] as int].name@)
            && m[packages@[sorted@[k] as int].name@] == sorted@[k] as int by {
            let j = choose|j: int| 0 <= j < entries@.len() && #[trigger] entries@[j] == sorted@[k];
            assert(m.dom().contains(packages@[entries@[j] as int].name@));
        }
        assert forall|name: Seq<char>| #[trigger] m.dom().contains(name) implies exists|k: int| 0 <= k < sorted@.len()
            && #[trigger] packages@[sorted@[k] as int].name@ == name by {
            let j = choose|j: int| 0 <= j < entries@.len() && #[trigger] packages@[entries@[j] as int].name@ == name;
            assert(sorted@.contains(entries@[j]));
            let k = choose|k: int| 0 <= k < sorted@.len() && sorted@[k] == entries@[j];
            assert(packages@[sorted@[k] as int].name@ == name);
        }
    }
    sorted
}

/// What `newest_by_name` holds: for each name, a package of that name that
/// is not ignored; and every name of a package that is not ignored.
proof fn lemma_newest_by_name(packages: Seq<PackageInfo>, ignore: Set<Seq<char>>, n: int)
    requires
        0 <= n <= packages.len(),
    ensures
        newest_by_name(packages, ignore, n) matches Some(m) ==> {
            &&& forall|name: Seq<char>| #[trigger] m.dom().contains(name) ==> 0 <= m[name] < n
                && packages[m[name]].name@ == name && !ignore.contains(name)
            &&& forall|j: int| 0 <= j < n && !ignore.contains(#[trigger] packages[j].name@) ==> m.dom().contains(packages[j].name@)
        },
    decreases n,
{
    if n > 0 {
        lemma_newest_by_name(packages, ignore, n - 1);
    }
}

/// What `with_specified` adds: every listed package's name, mapped to a
/// listed package of that name; other names keep their package.
proof fn lemma_with_specified(packages: Seq<PackageInfo>, m: Map<Seq<char>, int>, specified: Seq<usize>, k: int)
    requires
        0 <= k <= specified.len(),
    ensures
        forall|j: int| 0 <= j < k ==> with_specified(packages, m, specified, k).dom().contains(
            #[trigger] packages[specified[j] as int].name@,
        ),
        forall|name: Seq<char>| #[trigger] with_specified(packages, m, specified, k).dom().contains(name) ==> {
            ||| (m.dom().contains(name) && with_specified(packages, m, specified, k)[name] == m[name])
            ||| exists|j: int| 0 <= j < k && #[trigger] specified[j] as int == with_specified(packages, m, specified, k)[name]
                && packages[specified[j] as int].name@ == name
        },
        forall|name: Seq<char>| (forall|j: int| 0 <= j < k ==> #[trigger] packages[specified[j] as int].name@ != name)
            ==> with_specified(packages, m, specified, k).dom().contains(name) == m.dom().contains(name),
    decreases k,
{
    if k > 0 {
        lemma_with_specified(packages, m, specified, k - 1);
        let prev = with_specified(packages, m, specified, k - 1);
        let cur = with_specified(packages, m, specified, k);
        assert forall|name: Seq<char>| #[trigger] cur.dom().contains(name) implies {
            ||| (m.dom().contains(name) && cur[name] == m[name])
            ||| exists|j: int| 0 <= j < k && #[trigger] specified[j] as int == cur[name]
                && packages[specified[j] as int].name@ == name
        } by {
            if name == packages[specified[k - 1] as int].name@ {
                assert(specified[k - 1] as int == cur[name]);
            } else {
                assert(prev.dom().contains(name));
                if !(m.dom().contains(name) && prev[name] == m[name]) {
                    let j = choose|j: int| 0 <= j < k - 1 && #[trigger] specified[j] as int == prev[name]
                        && packages[specified[j] as int].name@ == name;
                    assert(specified[j] as int == cur[name]);
                }
            }
        }
    }
}

/// The name of a listed package maps to a listed package of that name.
proof fn lemma_with_specified_listed(
    packages: Seq<PackageInfo>,
    m: Map<Seq<char>, int>,
    specified: Seq<usize>,
    k: int,
    name: Seq<char>,
)
    requires
        0 <= k <= specified.len(),
        exists|j: int| 0 <= j < k && #[trigger] packages[specified[j] as int].name@ == name,
    ensures
        exists|j: int| 0 <= j < k && #[trigger] specified[j] as int == with_specified(packages, m, specified, k)[name]
            && packages[specified[j] as int].name@ == name,
    decreases k,
{
    let cur = with_specified(packages, m, specified, k);
    if packages[specified[k - 1] as int].name@ == name {
        assert(specified[k - 1] as int == cur[name]);
    } else {
        let j = choose|j: int| 0 <= j < k && #[trigger] packages[specified[j] as int].name@ == name;
        assert(j < k - 1);
        lemma_with_specified_listed(packages, m, specified, k - 1, name);
        let j2 = choose|j2: int| 0 <= j2 < k - 1 && #[trigger] specified[j2] as int == with_specified(packages, m, specified, k - 1)[name]
            && packages[specified[j2] as int].name@ == name;
        assert(specified[j2] as int == cur[name]);
    }
}

/// The root package is never checked in recursive mode.
pub proof fn lemma_root_never_chosen(
    packages: Seq<PackageInfo>,
    ignore: Set<Seq<char>>,
    specified: Seq<usize>,
    root: Seq<char>,
)
    ensures
        spec_recursive_packages(packages, ignore, specified, root) matches Some(m) ==> !m.dom().contains(root),
{
}

/// Every package listed in the sources file is checked in recursive mode,
/// in a version that the sources file lists, unless it is the root package.
pub proof fn lemma_listed_always_chosen(
    packages: Seq<PackageInfo>,
    ignore: Set<Seq<char>>,
    specified: Seq<usize>,
    root: Seq<char>,
    k: int,
)
    requires
        0 <= k < specified.len(),
        forall|j: int| 0 <= j < specified.len() ==> #[trigger] specified[j] < packages.len(),
        packages[specified[k] as int].name@ != root,
    ensures
        spec_recursive_packages(packages, ignore, specified, root) matches Some(m) ==> {
            let name = packages[specified[k] as int].name@;
            &&& m.dom().contains(name)
            &&& exists|j: int| 0 <= j < specified.len() && #[trigger] specified[j] as int == m[name]
                && packages[specified[j] as int].name@ == name
        },
{
    if let Some(m0) = newest_by_name(packages, ignore, packages.len() as int) {
        lemma_with_specified(packages, m0, specified, specified.len() as int);
        let name = packages[specified[k] as int].name@;
        let w = with_specified(packages, m0, specified, specified.len() as int);
        assert(w.dom().contains(name));
        lemma_with_specified_listed(packages, m0, specified, specified.len() as int, name);
        assert(w.remove(root)[name] == w[name]);
    }
}

/// A package whose name is ignored is checked only when the sources file
/// lists a package of that name.
pub proof fn lemma_ignored_never_chosen(
    packages: Seq<PackageInfo>,
    ignore: Set<Seq<char>>,
    specified: Seq<usize>,
    root: Seq<char>,
    name: Seq<char>,
)
    requires
        ignore.contains(name),
        forall|j: int| 0 <= j < specified.len() ==> #[trigger] packages[specified[j] as int].name@ != name,
    ensures
        spec_recursive_packages(packages, ignore, specified, root) matches Some(m) ==> !m.dom().contains(name),
{
    if let Some(m0) = newest_by_name(packages, ignore, packages.len() as int) {
        lemma_newest_by_name(packages, ignore, packages.len() as int);
        lemma_with_specified(packages, m0, specified, specified.len() as int);
    }
}

/// Every package whose name is neither ignored nor the root's is checked in
/// recursive mode, in some version of that name.
pub proof fn lemma_every_name_chosen(
    packages: Seq<PackageInfo>,
    ignore: Set<Seq<char>>,
    specified: Seq<usize>,
    root: Seq<char>,
    i: int,
)
    requires
        0 <= i < packages.len(),
        forall|j: int| 0 <= j < specified.len() ==> #[trigger] specified[j] < packages.len(),
        !ignore.contains(packages[i].name@),
        packages[i].name@ != root,
    ensures
        spec_recursive_packages(packages, ignore, specified, root) matches Some(m) ==> {
            &&& m.dom().contains(packages[i].name@)
            &&& 0 <= m[packages[i].name@] < packages.len()
            &&& packages[m[packages[i].name@]].name@ == packages[i].name@
        },
{
    if let Some(m0) = newest_by_name(packages, ignore, packages.len() as int) {
        lemma_newest_by_name(packages, ignore, packages.len() as int);
        lemma_with_specified(packages, m0, specified, specified.len() as int);
        let name = packages[i].name@;
        let w = with_specified(packages, m0, specified, specified.len() as int);
        assert(m0.dom().contains(name));
        if !(forall|j: int| 0 <= j < specified.len() ==> #[trigger] packages[specified[j] as int].name@ != name) {
            let j = choose|j: int| 0 <= j < specified.len() && #[trigger] packages[specified[j] as int].name@ == name;
            assert(w.dom().contains(packages[specified[j] as int].name@));
        }
        assert(w.dom().contains(name));
        if !(m0.dom().contains(name) && w[name] == m0[name]) {
            let j = choose|j: int| 0 <= j < specified.len() && #[trigger] specified[j] as int == w[name]
                && packages[specified[j] as int].name@ == name;
            assert(specified[j] < packages.len());
        }
    }
}

/// Once a step fails, `newest_by_name` fails for every longer prefix.
proof fn lemma_newest_stays_none(packages: Seq<PackageInfo>, ignore: Set<Seq<char>>, n: int, total: int)
    requires
        n <= total,
        newest_by_name(packages, ignore, n) is None,
    ensures
        newest_by_name(packages, ignore, total) is None,
    decreases total - n,
{
    if n < total {
        lemma_newest_stays_none(packages, ignore, n + 1, total);
    }
}

/// Removing the entry at position `k` lists the map without its name.
proof fn lemma_remove_entry(packages: Seq<PackageInfo>, entries: Seq<usize>, m: Map<Seq<char>, int>, k: int)
    requires
        lists_map(packages, entries, m),
        0 <= k < entries.len(),
    ensures
        lists_map(packages, entries.remove(k), m.remove(packages[entries[k] as int].name@)),
{
    let name = packages[entries[k] as int].name@;
    let r = entries.remove(k);
    let m2 = m.remove(name);
    assert forall|j: int| 0 <= j < r.len() implies m2.dom().contains(#[trigger] packages[r[j] as int].name@)
        && m2[packages[r[j] as int].name@] == r[j] as int by {
        if j < k {
            assert(r[j] == entries[j]);
        } else {
            assert(r[j] == entries[j + 1]);
        }
    }
    assert forall|nm: Seq<char>| #[trigger] m2.dom().contains(nm) implies exists|j: int| 0 <= j < r.len()
        && #[trigger] packages[r[j] as int].name@ == nm by {
        let j = choose|j: int| 0 <= j < entries.len() && #[trigger] packages[entries[j] as int].name@ == nm;
        if j < k {
            assert(packages[r[j] as int].name@ == nm);
        } else {
            assert(j != k);
            assert(packages[r[j - 1] as int].name@ == nm);
        }
    }
    assert forall|a: int, b: int| 0 <= a < b < r.len() implies packages[r[a] as int].name@ != packages[r[b] as int].name@ by {
        let a2 = if a < k { a } else { a + 1 };
        let b2 = if b < k { b } else { b + 1 };
        assert(r[a] == entries[a2]);
        assert(r[b] == entries[b2]);
    }
}

/// `sources/<name>-<version>`: where the sources of a package are copied,
/// relative to the workspace of sources.
pub open spec fn spec_workspace_path(name: Seq<char>, version: Seq<char>) -> Seq<char> {
    "sources/"@ + name + "-"@ + version
}

/// The path where the sources of `package` are copied.
pub fn workspace_path(package: &PackageInfo) -> (path: String)
    ensures
        path@ == spec_workspace_path(package.name@, package.version@),
{
    let mut path = String::from_str("sources/");
    path.append(package.name.as_str());
    path.append("-");
    path.append(package.version.as_str());
    path
}

/// The `[patch.crates-io]` table of the workspace for the first `n`
/// packages: each name patched to its copied sources, the last package of a
/// name winning.
pub open spec fn patch_map(packages: Seq<PackageInfo>, n: int) -> Map<Seq<char>, Seq<char>>
    decreases n,
{
    if n <= 0 {
        Map::empty()
    } else {
        patch_map(packages, n - 1).insert(
            packages[n - 1].name@,
            spec_workspace_path(packages[n - 1].name@, packages[n - 1].version@),
        )
    }
}

/// The patch table patches exactly the names of the packages, each to the
/// copied sources of the last package of that name.
pub proof fn lemma_patch_map_last_wins(packages: Seq<PackageInfo>, n: int)
    requires
        0 <= n <= packages.len(),
    ensures
        forall|name: Seq<char>| #[trigger] patch_map(packages, n).dom().contains(name) <==> exists|k: int|
            0 <= k < n && packages[k].name@ == name,
        forall|k: int| 0 <= k < n && (forall|l: int| k < l < n ==> packages[l].name@ != packages[k].name@) ==> #[trigger]
            patch_map(packages, n)[packages[k].name@] == spec_workspace_path(packages[k].name@, packages[k].version@),
    decreases n,
{
    if n > 0 {
        lemma_patch_map_last_wins(packages, n - 1);
        let m = patch_map(packages, n);
        assert forall|name: Seq<char>| #[trigger] m.dom().contains(name) <==> exists|k: int|
            0 <= k < n && packages[k].name@ == name by {
            if m.dom().contains(name) && name != packages[n - 1].name@ {
                assert(patch_map(packages, n - 1).dom().contains(name));
                let k = choose|k: int| 0 <= k < n - 1 && packages[k].name@ == name;
                assert(0 <= k < n && packages[k].name@ == name);
            }
            if name == packages[n - 1].name@ {
                assert(0 <= n - 1 < n && packages[n - 1].name@ == name);
            }
            if exists|k: int| 0 <= k < n && packages[k].name@ == name {
                let k = choose|k: int| 0 <= k < n && packages[k].name@ == name;
                if k < n - 1 {
                    assert(patch_map(packages, n - 1).dom().contains(name));
                }
            }
        }
        assert forall|k: int| 0 <= k < n && (forall|l: int| k < l < n ==> packages[l].name@ != packages[k].name@) implies #[trigger]
            m[packages[k].name@] == spec_workspace_path(packages[k].name@, packages[k].version@) by {
            if k < n - 1 {
                assert(packages[n - 1].name@ != packages[k].name@);
                assert(forall|l: int| k < l < n - 1 ==> packages[l].name@ != packages[k].name@);
                assert(patch_map(packages, n - 1)[packages[k].name@] == spec_workspace_path(
                    packages[k].name@,
                    packages[k].version@,
                ));
            }
        }
    }
}

/// The manifest of the workspace of sources.
pub struct WorkspaceLayout {
    /// The workspace members, one per package, in order.
    pub members: Vec<String>,
    /// The names of the patched packages, each once.
    pub patch_names: Vec<String>,
    /// The path each of `patch_names` is patched to.
    pub patch_paths: Vec<String>,
}

/// `names` and `paths` list, once per name, the entries of `m`.
pub open spec fn lists_patch(names: Seq<Seq<char>>, paths: Seq<Seq<char>>, m: Map<Seq<char>, Seq<char>>) -> bool {
    &&& names.len() == paths.len()
    &&& names.no_duplicates()
    &&& forall|k: int| 0 <= k < names.len() ==> m.dom().contains(#[trigger] names[k]) && m[names[k]] == paths[k]
    &&& forall|name: Seq<char>| #[trigger] m.dom().contains(name) ==> names.contains(name)
}

/// The members and the patch table of the workspace that holds the copies
/// of `packages`.
pub fn workspace_layout(packages: &Vec<PackageInfo>) -> (layout: WorkspaceLayout)
    ensures
        views(layout.members@) == packages@.map_values(|p: PackageInfo| spec_workspace_path(p.name@, p.version@)),
        lists_patch(views(layout.patch_names@), views(layout.patch_paths@), patch_map(packages@, packages@.len() as int)),
{
    let mut members: Vec<String> = Vec::new();
    let mut names: Vec<String> = Vec::new();
    let mut paths: Vec<String> = Vec::new();
    let mut i: usize = 0;
    while i < packages.len()
        invariant
            0 <= i <= packages@.len(),
            views(members@) == packages@.take(i as int).map_values(|p: PackageInfo| spec_workspace_path(p.name@, p.version@)),
            lists_patch(views(names@), views(paths@), patch_map(packages@, i as int)),
        decreases packages.len() - i,
    {
        let path = workspace_path(&packages[i]);
        proof {
            lemma_views_push(members@, path);
            assert(packages@.take(i + 1).map_values(|p: PackageInfo| spec_workspace_path(p.name@, p.version@))
                =~= packages@.take(i as int).map_values(|p: PackageInfo| spec_workspace_path(p.name@, p.version@)).push(path@));
        }
        members.push(path.clone());
        let ghost old_names = views(names@);
        let ghost old_paths = views(paths@);
        let ghost m = patch_map(packages@, i as int);
        let ghost m2 = patch_map(packages@, i as int + 1);
        let name = &packages[i].name;
        let mut k: usize = 0;
        let mut found = false;
        while k < names.len() && !found
            invariant
                0 <= k <= names@.len(),
                found ==> k < names@.len() && names@[k as int]@ == name@,
                forall|j: int| 0 <= j < k ==> views(names@)[j] != name@,
            decreases names.len() - k, if found { 0int } else { 1int },
        {
            if names[k] == *name {
                found = true;
            } else {
                k = k + 1;
            }
        }
        if found {
            paths.set(k, path);
            proof {
                assert(views(paths@) == old_paths.update(k as int, path@));
                assert(views(names@)[k as int] == name@);
            }
        } else {
            let name_copy = name.clone();
            proof {
                lemma_views_push(names@, name_copy);
                lemma_views_push(paths@, path);
            }
            names.push(name_copy);
            paths.push(path);
            proof {
                assert(!old_names.contains(name@));
                assert(views(names@).no_duplicates()) by {
                    assert forall|a: int, b: int| 0 <= a < b < views(names@).len() implies views(names@)[a] != views(names@)[b] by {
                        if b == old_names.len() {
                            assert(old_names.contains(old_names[a]));
                        }
                    }
                }
            }
        }
        proof {
            assert forall|k2: int| 0 <= k2 < views(names@).len() implies m2.dom().contains(#[trigger] views(names@)[k2])
                && m2[views(names@)[k2]] == views(paths@)[k2] by {
                if views(names@)[k2] != name@ {
                    assert(old_names[k2] == views(names@)[k2]);
                }
            }
            assert forall|nm: Seq<char>| #[trigger] m2.dom().contains(nm) implies views(names@).contains(nm) by {
                if nm == name@ {
                    if found {
                        assert(views(names@)[k as int] == nm);
                    } else {
                        assert(views(names@)[old_names.len() as int] == nm);
                    }
                } else {
                    assert(old_names.contains(nm));
                    let j = choose|j: int| 0 <= j < old_names.len() && old_names[j] == nm;
                    assert(views(names@)[j] == nm);
                }
            }
        }
        i = i + 1;
    }
    assert(packages@.take(packages@.len() as int) == packages@);
    WorkspaceLayout { members, patch_names: names, patch_paths: paths }
}

/// The changes made to the manifest of a copied package so that cargo does
/// not warn about it inside the workspace of sources.
#[derive(Clone, Copy, Debug, PartialEq, Eq, Structural)]
pub struct ManifestEdits {
    /// Drop the `[profile]` tables, which only a workspace root may have.
    pub clear_profile: bool,
    /// Drop `package.resolver`, which only a workspace root may set.
    pub clear_resolver: bool,
    /// Write `edition = "2015"` where the package gives no edition, the
    /// edition cargo assumes then.
    pub set_edition_2015: bool,
}

/// The changes due on a manifest, given whether it has a `[package]` table
/// and whether that table gives an edition.
pub fn manifest_edits(has_package: bool, has_edition: bool) -> (edits: ManifestEdits)
    ensures
        edits == (ManifestEdits {
            clear_profile: true,
            clear_resolver: has_package,
            set_edition_2015: has_package && !has_edition,
        }),
{
    ManifestEdits { clear_profile: true, clear_resolver: has_package, set_edition_2015: has_package && !has_edition }
}

/// Whether every character of `s` is an ASCII digit, and there is one.
pub open spec fn all_digits(s: Seq<char>) -> bool {
    s.len() > 0 && forall|i: int| 0 <= i < s.len() ==> '0' <= #[trigger] s[i] <= '9'
}

/// The number written in decimal by the digits `s`.
pub open spec fn decimal_value(s: Seq<char>) -> nat
    decreases s.len(),
{
    if s.len() == 0 {
        0
    } else {
        decimal_value(s.drop_last()) * 10 + (s.last() as nat - '0' as nat) as nat
    }
}

/// What `str::parse::<u32>` gives on `s`: an optional `+` sign followed by
/// one or more decimal digits parses to their value when it fits in a `u32`;
/// anything else (an empty string, a sign on its own, any other character,
/// an overflow) fails.
pub open spec fn spec_parse_u32(s: Seq<char>) -> Option<u32> {
    let digits = if s.len() > 0 && s[0] == '+' { s.skip(1) } else { s };
    if all_digits(digits) && decimal_value(digits) <= u32::MAX {
        Some(decimal_value(digits) as u32)
    } else {
        None
    }
}

/// Calls `str::parse::<u32>`, which reads a `u32` as `u32::from_str_radix`
/// with radix 10 does: its documentation describes the accepted input as an
/// optional `+` sign followed by digits only, any other character (also a
/// sign on its own) as an error, and a value out of range as an error.
#[verifier::external_body]
fn parse_u32(s: &str) -> (parsed: Option<u32>)
    ensures
        parsed == spec_parse_u32(s@),
{
    s.parse::<u32>().ok()
}

/// The largest of the numbers among `parsed`, if there is one.
pub open spec fn max_parsed(parsed: Seq<Option<u32>>) -> Option<u32>
    decreases parsed.len(),
{
    if parsed.len() == 0 {
        None
    } else {
        match (max_parsed(parsed.drop_last()), parsed.last()) {
            (Some(a), Some(b)) => Some(if a >= b { a } else { b }),
            (Some(a), None) => Some(a),
            (None, b) => b,
        }
    }
}

/// The number of the next performance run: 0 when the runs directory was
/// just created, else one more than the largest run number among the
/// directory's entries (`parsed`: each entry's name read as a number), or 0
/// when none is a number. `None` when the largest is `u32::MAX`, which has
/// no successor.
pub fn next_run_number(created: bool, parsed: &Vec<Option<u32>>) -> (run: Option<u32>)
    ensures
        run == if created {
            Some(0u32)
        } else {
            match max_parsed(parsed@) {
                None => Some(0u32),
                Some(m) => if m == u32::MAX { None::<u32> } else { Some((m + 1) as u32) },
            }
        },
{
    if created {
        return Some(0);
    }
    let mut max: Option<u32> = None;
    let mut i: usize = 0;
    while i < parsed.len()
        invariant
            0 <= i <= parsed@.len(),
            max == max_parsed(parsed@.take(i as int)),
        decreases parsed.len() - i,
    {
        assert(parsed@.take(i + 1).drop_last() == parsed@.take(i as int));
        max = match (max, parsed[i]) {
            (Some(a), Some(b)) => Some(if a >= b { a } else { b }),
            (Some(a), None) => Some(a),
            (None, b) => b,
        };
        i = i + 1;
    }
    assert(parsed@.take(parsed@.len() as int) == parsed@);
    match max {
        None => Some(0),
        Some(m) => if m == u32::MAX { None } else { Some(m + 1) },
    }
}

/// Each entry name read as a run number.
pub open spec fn parse_all(names: Seq<Seq<char>>) -> Seq<Option<u32>> {
    names.map_values(|n: Seq<char>| spec_parse_u32(n))
}

/// The number of the next performance run, from whether the runs directory
/// was just created and the names of its entries.
pub fn perf_run_number(created: bool, entry_names: &Vec<String>) -> (run: Option<u32>)
    ensures
        run == if created {
            Some(0u32)
        } else {
            match max_parsed(parse_all(views(entry_names@))) {
                None => Some(0u32),
                Some(m) => if m == u32::MAX { None::<u32> } else { Some((m + 1) as u32) },
            }
        },
{
    let mut parsed: Vec<Option<u32>> = Vec::new();
    let mut i: usize = 0;
    while i < entry_names.len()
        invariant
            0 <= i <= entry_names@.len(),
            parsed@ == parse_all(views(entry_names@)).take(i as int),
        decreases entry_names.len() - i,
    {
        parsed.push(parse_u32(entry_names[i].as_str()));
        assert(parse_all(views(entry_names@)).take(i + 1) =~= parse_all(views(entry_names@)).take(i as int).push(
            spec_parse_u32(entry_names@[i as int]@),
        ));
        i = i + 1;
    }
    assert(parse_all(views(entry_names@)).take(entry_names@.len() as int) == parse_all(views(entry_names@)));
    next_run_number(created, &parsed)
}

/// The largest run number is the number of one of the entries, and there is
/// none exactly when no entry is a number: together with
/// `lemma_max_parsed`, it is the maximum of the entries that are numbers.
pub proof fn lemma_max_parsed_is_attained(parsed: Seq<Option<u32>>)
    ensures
        max_parsed(parsed) matches Some(m) ==> exists|k: int| 0 <= k < parsed.len() && #[trigger] parsed[k] == Some(m),
        max_parsed(parsed) is None <==> forall|k: int| 0 <= k < parsed.len() ==> (#[trigger] parsed[k]) is None,
    decreases parsed.len(),
{
    lemma_max_parsed(parsed);
    if parsed.len() > 0 {
        let init = parsed.drop_last();
        lemma_max_parsed_is_attained(init);
        assert forall|k: int| 0 <= k < init.len() implies #[trigger] init[k] == parsed[k] by {}
        let last = parsed.len() - 1;
        assert(parsed[last] == parsed.last());
        if max_parsed(parsed) is Some {
            let m = max_parsed(parsed)->0;
            if max_parsed(init) is Some && max_parsed(init)->0 == m {
                let k = choose|k: int| 0 <= k < init.len() && #[trigger] init[k] == Some(m);
                assert(parsed[k] == Some(m));
            } else {
                assert(parsed[last] == Some(m));
            }
        }
        if forall|k: int| 0 <= k < parsed.len() ==> (#[trigger] parsed[k]) is None {
            assert(forall|k: int| 0 <= k < init.len() ==> (#[trigger] init[k]) is None);
            assert(parsed[last] is None);
        }
    }
}

/// `max_parsed` is at least every number of the list.
proof fn lemma_max_parsed(parsed: Seq<Option<u32>>)
    ensures
        forall|k: int| 0 <= k < parsed.len() && (#[trigger] parsed[k]) is Some ==>
            (max_parsed(parsed) is Some && parsed[k]->0 <= max_parsed(parsed)->0),
    decreases parsed.len(),
{
    if parsed.len() > 0 {
        lemma_max_parsed(parsed.drop_last());
        assert forall|k: int| 0 <= k < parsed.len() && (#[trigger] parsed[k]) is Some implies
            (max_parsed(parsed) is Some && parsed[k]->0 <= max_parsed(parsed)->0) by {
            if k < parsed.len() - 1 {
                assert(parsed.drop_last()[k] == parsed[k]);
            }
        }
    }
}

/// A new performance run never takes the number of an existing run: the
/// number chosen is larger than every run number among the entries.
pub proof fn lemma_new_run_is_new(created: bool, entry_names: Seq<Seq<char>>, k: int)
    requires
        !created,
        0 <= k < entry_names.len(),
        spec_parse_u32(entry_names[k]) is Some,
    ensures
        match max_parsed(parse_all(entry_names)) {
            None => false,
            Some(m) => m < u32::MAX ==> spec_parse_u32(entry_names[k])->0 < m + 1,
        },
{
    lemma_max_parsed(parse_all(entry_names));
    assert(parse_all(entry_names)[k] == spec_parse_u32(entry_names[k]));
}

/// The arguments of the `cargo` command that builds clippy's driver and
/// prints its version; built with optimizations for performance runs.
pub fn build_clippy_args(release: bool) -> (args: Vec<String>)
    ensures
        views(args@) == seq!["run"@, "--bin=clippy-driver"@] + (if release { seq!["--release"@] } else { Seq::empty() })
            + seq!["--"@, "--version"@],
{
    let mut args: Vec<String> = Vec::new();
    args.push(String::from_str("run"));
    args.push(String::from_str("--bin=clippy-driver"));
    if release {
        args.push(String::from_str("--release"));
    }
    args.push(String::from_str("--"));
    args.push(String::from_str("--version"));
    assert(views(args@) =~= seq!["run"@, "--bin=clippy-driver"@] + (if release { seq!["--release"@] } else { Seq::empty() })
        + seq!["--"@, "--version"@]);
    args
}

/// `target/<profile>/clippy-driver<exe suffix>`: the driver that the build
/// produced, in the `release` profile for performance runs and `debug`
/// otherwise.
pub fn clippy_driver_path(perf: bool, exe_suffix: &str) -> (path: String)
    ensures
        path@ == "target/"@ + (if perf { "release"@ } else { "debug"@ }) + "/clippy-driver"@ + exe_suffix@,
{
    let mut path = String::from_str("target/");
    if perf {
        path.append("release");
    } else {
        path.append("debug");
    }
    path.append("/clippy-driver");
    path.append(exe_suffix);
    path
}

/// The extra options of `cargo metadata` on the workspace of sources: build
/// dependencies as artifacts, only the dependencies of `target`, and the
/// lowest versions the sources file allows.
pub fn metadata_options(target: &str) -> (options: Vec<String>)
    ensures
        views(options@) == seq!["-Zbindeps"@, "--filter-platform"@, target@, "-Zdirect-minimal-versions"@],
{
    let mut options: Vec<String> = Vec::new();
    options.push(String::from_str("-Zbindeps"));
    options.push(String::from_str("--filter-platform"));
    options.push(String::from_str(target));
    options.push(String::from_str("-Zdirect-minimal-versions"));
    assert(views(options@) =~= seq!["-Zbindeps"@, "--filter-platform"@, target@, "-Zdirect-minimal-versions"@]);
    options
}

/// A node of cargo's resolve graph: a package id and the ids of the
/// packages it depends on.
pub struct ResolveNode {
    pub id: String,
    pub deps: Vec<String>,
}

/// The ids of the nodes of a resolve graph, in order.
pub open spec fn node_ids(nodes: Seq<ResolveNode>) -> Seq<Seq<char>> {
    nodes.map_values(|n: ResolveNode| n.id@)
}

/// The position of the first of `ids` equal to `id`.
fn position(strings: &Vec<String>, id: &String) -> (found: Option<usize>)
    ensures
        match found {
            Some(i) => first_index(views(strings@), id@) == Some(i as int),
            None => first_index(views(strings@), id@) is None,
        },
{
    let ghost ids = views(strings@);
    let mut i: usize = 0;
    while i < strings.len()
        invariant
            0 <= i <= strings@.len(),
            ids == views(strings@),
            first_index(ids.take(i as int), id@) is None,
        decreases strings.len() - i,
    {
        assert(ids.take(i + 1).drop_last() == ids.take(i as int));
        if strings[i] == *id {
            proof {
                lemma_first_index_prefix(ids, id@, i as int + 1);
            }
            return Some(i);
        }
        i = i + 1;
    }
    assert(ids.take(strings@.len() as int) == ids);
    None
}

/// The position of the first node with id `id`.
fn node_position(nodes: &Vec<ResolveNode>, id: &String) -> (found: Option<usize>)
    ensures
        match found {
            Some(i) => first_index(node_ids(nodes@), id@) == Some(i as int),
            None => first_index(node_ids(nodes@), id@) is None,
        },
{
    let ghost ids = node_ids(nodes@);
    let mut i: usize = 0;
    while i < nodes.len()
        invariant
            0 <= i <= nodes@.len(),
            ids == node_ids(nodes@),
            first_index(ids.take(i as int), id@) is None,
        decreases nodes.len() - i,
    {
        assert(ids.take(i + 1).drop_last() == ids.take(i as int));
        if nodes[i].id == *id {
            proof {
                lemma_first_index_prefix(ids, id@, i as int + 1);
            }
            return Some(i);
        }
        i = i + 1;
    }
    assert(ids.take(nodes@.len() as int) == ids);
    None
}

/// The packages listed in the sources file: the dependencies of the root
/// node of the resolve graph, each as the index of its package in
/// `package_ids`, in the order of the root's dependencies. `None` where the
/// root or one of its dependencies is missing from the graph.
pub open spec fn spec_specified_packages(
    nodes: Seq<ResolveNode>,
    root: Seq<char>,
    package_ids: Seq<Seq<char>>,
) -> Option<Seq<int>> {
    match first_index(node_ids(nodes), root) {
        None => None,
        Some(r) => {
            let deps = views(nodes[r].deps@);
            if forall|k: int| 0 <= k < deps.len() ==> first_index(package_ids, #[trigger] deps[k]) is Some {
                Some(deps.map_values(|d: Seq<char>| first_index(package_ids, d)->0))
            } else {
                None
            }
        },
    }
}

/// The listed packages are the root's dependencies, one for each, in the
/// same order: the package at each index has the id of the dependency at the
/// same place.
pub proof fn lemma_specified_are_root_deps(nodes: Seq<ResolveNode>, root: Seq<char>, package_ids: Seq<Seq<char>>)
    ensures
        spec_specified_packages(nodes, root, package_ids) matches Some(v) ==> {
            let r = first_index(node_ids(nodes), root)->0;
            &&& 0 <= r < nodes.len()
            &&& nodes[r].id@ == root
            &&& v.len() == nodes[r].deps@.len()
            &&& forall|k: int| 0 <= k < v.len() ==> 0 <= #[trigger] v[k] < package_ids.len()
                && package_ids[v[k]] == nodes[r].deps@[k]@
        },
        first_index(node_ids(nodes), root) is None ==> spec_specified_packages(nodes, root, package_ids) is None,
{
    lemma_first_index_bounds(node_ids(nodes), root);
    if spec_specified_packages(nodes, root, package_ids) is Some {
        let r = first_index(node_ids(nodes), root)->0;
        let deps = views(nodes[r].deps@);
        let v = spec_specified_packages(nodes, root, package_ids)->0;
        assert(node_ids(nodes)[r] == nodes[r].id@);
        assert forall|k: int| 0 <= k < v.len() implies 0 <= #[trigger] v[k] < package_ids.len()
            && package_ids[v[k]] == nodes[r].deps@[k]@ by {
            assert(first_index(package_ids, deps[k]) is Some);
            lemma_first_index_bounds(package_ids, deps[k]);
        }
    }
}

/// The packages that the sources file lists, as indices into the packages
/// whose ids are `package_ids`.
pub fn specified_packages(nodes: &Vec<ResolveNode>, root: &String, package_ids: &Vec<String>) -> (specified: Option<Vec<usize>>)
    ensures
        match specified {
            Some(v) => spec_specified_packages(nodes@, root@, views(package_ids@)) == Some(
                v@.map_values(|i: usize| i as int),
            ),
            None => spec_specified_packages(nodes@, root@, views(package_ids@)) is None,
        },
{
    let ghost ids = views(package_ids@);
    let found = node_position(nodes, root);
    let r = match found {
        Some(r) => r,
        None => return None,
    };
    proof {
        lemma_first_index_bounds(node_ids(nodes@), root@);
    }
    let deps = &nodes[r].deps;
    let ghost dv = views(deps@);
    assert(node_ids(nodes@)[r as int] == nodes@[r as int].id@);
    let mut out: Vec<usize> = Vec::new();
    let mut k: usize = 0;
    while k < deps.len()
        invariant
            0 <= k <= deps@.len(),
            dv == views(deps@),
            ids == views(package_ids@),
            0 <= r < nodes@.len(),
            first_index(node_ids(nodes@), root@) == Some(r as int),
            dv == views(nodes@[r as int].deps@),
            out@.len() == k,
            forall|j: int| 0 <= j < k ==> first_index(ids, #[trigger] dv[j]) == Some(out@[j] as int),
        decreases deps.len() - k,
    {
        assert(dv[k as int] == deps@[k as int]@);
        match position(package_ids, &deps[k]) {
            Some(p) => {
                let ghost before = out@;
                out.push(p);
                assert forall|j: int| 0 <= j < k + 1 implies first_index(ids, #[trigger] dv[j]) == Some(out@[j] as int) by {
                    if j < k {
                        assert(out@[j] == before[j]);
                    }
                }
            },
            None => {
                assert(first_index(ids, dv[k as int]) is None);
                return None;
            },
        }
        k = k + 1;
    }
    assert(dv.map_values(|d: Seq<char>| first_index(ids, d)->0) =~= out@.map_values(|i: usize| i as int));
    Some(out)
}

/// The name and edition of the package whose manifest resolves the sources.
pub fn sources_package() -> (package: (String, String))
    ensures
        package.0@ == "lintcheck_sources"@,
        package.1@ == "2024"@,
{
    (String::from_str("lintcheck_sources"), String::from_str("2024"))
}

/// The resolver of the workspace of sources.
pub fn workspace_resolver() -> (resolver: String)
    ensures
        resolver@ == "2"@,
{
    String::from_str("2")
}

/// The edition written into a copied package's manifest that gives none,
/// the edition cargo assumes then.
pub fn assumed_edition() -> (edition: String)
    ensures
        edition@ == "2015"@,
{
    String::from_str("2015")
}

} // verus!
