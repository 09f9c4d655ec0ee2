//! Versions of the Rust compiler and the minimum supported Rust version
//! (MSRV) that a lint may need.
use vstd::prelude::*;

verus! {

/// A version of the Rust compiler: a normal `major.minor.patch` release, or
/// one of the three pre-releases of 1.0.0.
#[derive(Clone, Copy, Debug, PartialEq, Eq, Structural)]
pub enum RustVersion {
    Normal { major: u32, minor: u32, patch: u32 },
    /// `1.0.0-alpha`
    Alpha,
    /// `1.0.0-alpha.2`
    Alpha2,
    /// `1.0.0-beta`
    Beta,
}

/// `(a0, a1, a2) >= (b0, b1, b2)` in lexicographic order.
pub open spec fn triple_ge(a0: u32, a1: u32, a2: u32, b0: u32, b1: u32, b2: u32) -> bool {
    a0 > b0 || (a0 == b0 && (a1 > b1 || (a1 == b1 && a2 >= b2)))
}

/// Whether `version` meets the requirement `required` read as a caret
/// requirement with all three parts given: a pre-release meets only itself;
/// a normal release must be at least `required`, with the same major part,
/// and with the same leftmost non-zero part when `required` starts with zeros.
pub open spec fn caret_meets(version: RustVersion, required: RustVersion) -> bool {
    match (version, required) {
        (
            RustVersion::Normal { major, minor, patch },
            RustVersion::Normal { major: rmajor, minor: rminor, patch: rpatch },
        ) => {
            &&& triple_ge(major, minor, patch, rmajor, rminor, rpatch)
            &&& major == rmajor
            &&& rmajor == 0 ==> minor == rminor
            &&& rmajor == 0 && rminor == 0 ==> patch == rpatch
        },
        _ => version == required,
    }
}

/// Calls `rustc_semver::RustcVersion::meets`, with `required` built by
/// `RustcVersion::new` (all three parts given) for a normal release. As its
/// source shows, a special version meets only an equal version, and a
/// normal version meets a fully given normal requirement when it is at
/// least as large, has the same major part, and, where the requirement's
/// major (then minor) part is zero, the same minor (then patch) part.
#[verifier::external_body]
fn rustc_version_meets(version: RustVersion, required: RustVersion) -> (meets: bool)
    ensures
        meets == caret_meets(version, required),
{
    let convert = |v: RustVersion| match v {
        RustVersion::Normal { major, minor, patch } => rustc_semver::RustcVersion::new(major, minor, patch),
        RustVersion::Alpha => rustc_semver::RustcVersion::Special(rustc_semver::SpecialVersion::Alpha),
        RustVersion::Alpha2 => rustc_semver::RustcVersion::Special(rustc_semver::SpecialVersion::Alpha2),
        RustVersion::Beta => rustc_semver::RustcVersion::Special(rustc_semver::SpecialVersion::Beta),
    };
    convert(version).meets(convert(required))
}

/// Every version meets itself; a release never meets a requirement of
/// another major version, nor does a pre-release meet a normal release.
pub proof fn lemma_caret_meets_laws(version: RustVersion, required: RustVersion)
    ensures
        caret_meets(required, required),
        (version is Normal && required is Normal && version->major != required->major) ==> !caret_meets(
            version,
            required,
        ),
        (required is Normal && !(version is Normal)) ==> !caret_meets(version, required),
{
}

/// Within major version 1, a release meets a requirement exactly when it is
/// at least as new.
pub proof fn lemma_caret_meets_within_major_one(minor: u32, patch: u32, rminor: u32, rpatch: u32)
    ensures
        caret_meets(
            RustVersion::Normal { major: 1, minor, patch },
            RustVersion::Normal { major: 1, minor: rminor, patch: rpatch },
        ) <==> (minor > rminor || (minor == rminor && patch >= rpatch)),
{
}

/// Whether a lint that needs `lint_msrv` may fire under the configured
/// minimum supported version `msrv`: always when none is configured.
pub fn meets_msrv(msrv: Option<RustVersion>, lint_msrv: RustVersion) -> (meets: bool)
    ensures
        meets == match msrv {
            Some(v) => caret_meets(v, lint_msrv),
            None => true,
        },
{
    match msrv {
        Some(v) => rustc_version_meets(v, lint_msrv),
        None => true,
    }
}

/// The first version with `unsigned_abs` on signed integers: 1.51.0.
pub fn unsigned_abs_msrv() -> (v: RustVersion)
    ensures
        v == (RustVersion::Normal { major: 1, minor: 51, patch: 0 }),
{
    RustVersion::Normal { major: 1, minor: 51, patch: 0 }
}

} // verus!
