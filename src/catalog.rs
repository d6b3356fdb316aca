//! Picking one build out of a product's release catalog.
//!
//! The catalog is taken in the order the feed gives it, newest first; no
//! version comparison is made, so "latest" means "first that fits". With
//! prereleases allowed that is the first supported release as listed: a
//! prerelease listed after a stable release is not picked over it.
use vstd::prelude::*;
use crate::text::str_eq;

verus! {

/// Lifecycle state of a release.
#[derive(PartialEq, Eq, Structural, Clone, Copy, Debug)]
pub enum Lifecycle {
    Supported,
    Unsupported,
    Other,
}

/// One platform-specific artifact of a release.
pub struct Build {
    pub os: String,
    pub arch: String,
    pub url: String,
}

/// One release of a product, as listed by the catalog.
pub struct Release {
    pub version: String,
    pub state: Lifecycle,
    pub is_prerelease: bool,
    pub builds: Vec<Build>,
}

/// Why no build could be selected.
pub enum SelectError {
    /// The catalog lists no release at all.
    ProductNotFound,
    /// No release is in the supported state.
    NoSupportedVersion,
    /// No supported release has the requested version.
    VersionNotFound,
    /// "latest" was asked for and no supported release qualifies.
    NoSuitableVersion,
    /// The chosen release has no build for the platform; `platforms` lists
    /// each build's `os/arch` in catalog order.
    NoCompatibleBuild { version: String, platforms: Vec<String> },
}

pub open spec fn is_latest(req: Seq<char>) -> bool {
    req == "latest"@
}

/// The lifecycle state named by a catalog status string.
pub open spec fn lifecycle_spec(state: Seq<char>) -> Lifecycle {
    if state == "supported"@ {
        Lifecycle::Supported
    } else if state == "unsupported"@ {
        Lifecycle::Unsupported
    } else {
        Lifecycle::Other
    }
}

/// Whether a release answers the version request.
pub open spec fn release_fits(r: Release, req: Seq<char>, allow_prerelease: bool) -> bool {
    &&& r.state == Lifecycle::Supported
    &&& if is_latest(req) {
        allow_prerelease || !r.is_prerelease
    } else {
        r.version@ == req
    }
}

/// `i` is the first release of `c` that answers the request.
pub open spec fn is_chosen(c: Seq<Release>, req: Seq<char>, allow_prerelease: bool, i: int) -> bool {
    &&& 0 <= i < c.len()
    &&& release_fits(c[i], req, allow_prerelease)
    &&& forall|k: int| 0 <= k < i ==> !release_fits(#[trigger] c[k], req, allow_prerelease)
}

pub open spec fn any_supported(c: Seq<Release>) -> bool {
    exists|i: int| 0 <= i < c.len() && (#[trigger] c[i]).state == Lifecycle::Supported
}

pub open spec fn any_fits(c: Seq<Release>, req: Seq<char>, allow_prerelease: bool) -> bool {
    exists|i: int| 0 <= i < c.len() && release_fits(#[trigger] c[i], req, allow_prerelease)
}

/// Exact platform match.
pub open spec fn build_fits(b: Build, os: Seq<char>, arch: Seq<char>) -> bool {
    b.os@ == os && b.arch@ == arch
}

/// `j` is the first build of `bs` for the platform.
pub open spec fn is_chosen_build(bs: Seq<Build>, os: Seq<char>, arch: Seq<char>, j: int) -> bool {
    &&& 0 <= j < bs.len()
    &&& build_fits(bs[j], os, arch)
    &&& forall|k: int| 0 <= k < j ==> !build_fits(#[trigger] bs[k], os, arch)
}

pub open spec fn any_build_fits(bs: Seq<Build>, os: Seq<char>, arch: Seq<char>) -> bool {
    exists|j: int| 0 <= j < bs.len() && build_fits(#[trigger] bs[j], os, arch)
}

/// The diagnostic label of a build: `os/arch`.
pub open spec fn platform_label(b: Build) -> Seq<char> {
    b.os@ + "/"@ + b.arch@
}

/// The labels of all builds, in order.
pub open spec fn labels_of(labels: Seq<String>, bs: Seq<Build>) -> bool {
    &&& labels.len() == bs.len()
    &&& forall|k: int| 0 <= k < bs.len() ==> (#[trigger] labels[k])@ == platform_label(bs[k])
}

/// What `select` returns, stated over the catalog.
pub open spec fn select_result(
    c: Seq<Release>,
    req: Seq<char>,
    allow_prerelease: bool,
    os: Seq<char>,
    arch: Seq<char>,
    r: Result<Build, SelectError>,
) -> bool {
    match r {
        Ok(b) => exists|i: int, j: int|
            is_chosen(c, req, allow_prerelease, i) && is_chosen_build(c[i].builds@, os, arch, j)
                && b == #[trigger] c[i].builds@[j],
        Err(SelectError::ProductNotFound) => c.len() == 0,
        Err(SelectError::NoSupportedVersion) => c.len() > 0 && !any_supported(c),
        Err(SelectError::VersionNotFound) => !is_latest(req) && any_supported(c) && !any_fits(
            c,
            req,
            allow_prerelease,
        ),
        Err(SelectError::NoSuitableVersion) => is_latest(req) && any_supported(c) && !any_fits(
            c,
            req,
            allow_prerelease,
        ),
        Err(SelectError::NoCompatibleBuild { version, platforms }) => exists|i: int|
            #[trigger] is_chosen(c, req, allow_prerelease, i) && !any_build_fits(c[i].builds@, os, arch)
                && version@ == c[i].version@ && labels_of(platforms@, c[i].builds@),
    }
}

/// Reads a catalog status string: "supported", "unsupported", or anything else.
pub fn lifecycle_of(state: &str) -> (r: Lifecycle)
    ensures
        r == lifecycle_spec(state@),
{
    if str_eq(state, "supported") {
        Lifecycle::Supported
    } else if str_eq(state, "unsupported") {
        Lifecycle::Unsupported
    } else {
        Lifecycle::Other
    }
}

impl Build {
    /// A field-by-field copy.
    pub fn duplicate(&self) -> (r: Build)
        ensures
            r == *self,
    {
        Build { os: self.os.clone(), arch: self.arch.clone(), url: self.url.clone() }
    }

    /// The `os/arch` label of this build.
    pub fn platform(&self) -> (r: String)
        ensures
            r@ == platform_label(*self),
    {
        let mut s = String::from_str(self.os.as_str());
        s.append("/");
        s.append(self.arch.as_str());
        s
    }
}

fn fits(r: &Release, req: &str, latest: bool, allow_prerelease: bool) -> (b: bool)
    requires
        latest == is_latest(req@),
    ensures
        b == release_fits(*r, req@, allow_prerelease),
{
    if r.state != Lifecycle::Supported {
        false
    } else if latest {
        allow_prerelease || !r.is_prerelease
    } else {
        str_eq(r.version.as_str(), req)
    }
}

/// Index of the first build for the platform, if any.
pub fn find_build(builds: &Vec<Build>, os: &str, arch: &str) -> (r: Option<usize>)
    ensures
        match r {
            Some(j) => is_chosen_build(builds@, os@, arch@, j as int),
            None => !any_build_fits(builds@, os@, arch@),
        },
{
    let mut j: usize = 0;
    while j < builds.len()
        invariant
            j <= builds@.len(),
            forall|k: int| 0 <= k < j ==> !build_fits(#[trigger] builds@[k], os@, arch@),
        decreases builds@.len() - j,
    {
        let b = &builds[j];
        if str_eq(b.os.as_str(), os) && str_eq(b.arch.as_str(), arch) {
            return Some(j);
        }
        j += 1;
    }
    None
}

/// The `os/arch` label of every build, in order.
pub fn platform_labels(builds: &Vec<Build>) -> (r: Vec<String>)
    ensures
        labels_of(r@, builds@),
{
    let mut out: Vec<String> = Vec::new();
    let mut j: usize = 0;
    while j < builds.len()
        invariant
            j <= builds@.len(),
            out@.len() == j,
            forall|k: int| 0 <= k < j ==> (#[trigger] out@[k])@ == platform_label(builds@[k]),
        decreases builds@.len() - j,
    {
        let label = builds[j].platform();
        out.push(label);
        j += 1;
    }
    out
}

/// Picks the build to download.
///
/// The release is the first supported one that answers the request: for
/// "latest", the first supported release (the first non-prerelease one unless
/// prereleases are allowed); otherwise the first with exactly that version.
/// The build is the release's first with exactly `target_os` and `target_arch`.
pub fn select(
    catalog: &Vec<Release>,
    version_request: &str,
    allow_prerelease: bool,
    target_os: &str,
    target_arch: &str,
) -> (r: Result<Build, SelectError>)
    ensures
        select_result(catalog@, version_request@, allow_prerelease, target_os@, target_arch@, r),
{
    if catalog.len() == 0 {
        return Err(SelectError::ProductNotFound);
    }
    let mut i: usize = 0;
    let mut supported = false;
    while i < catalog.len() && !supported
        invariant
            i <= catalog@.len(),
            supported ==> any_supported(catalog@),
            !supported ==> forall|k: int|
                0 <= k < i ==> (#[trigger] catalog@[k]).state != Lifecycle::Supported,
        decreases catalog@.len() - i,
    {
        if catalog[i].state == Lifecycle::Supported {
            supported = true;
        }
        i += 1;
    }
    if !supported {
        return Err(SelectError::NoSupportedVersion);
    }
    let latest = str_eq(version_request, "latest");
    let mut i: usize = 0;
    while i < catalog.len()
        invariant
            i <= catalog@.len(),
            latest == is_latest(version_request@),
            forall|k: int|
                0 <= k < i ==> !release_fits(#[trigger] catalog@[k], version_request@, allow_prerelease),
        decreases catalog@.len() - i,
    {
        if fits(&catalog[i], version_request, latest, allow_prerelease) {
            let release = &catalog[i];
            assert(is_chosen(catalog@, version_request@, allow_prerelease, i as int));
            match find_build(&release.builds, target_os, target_arch) {
                Some(j) => {
                    let b = release.builds[j].duplicate();
                    assert(b == catalog@[i as int].builds@[j as int]);
                    return Ok(b);
                },
                None => {
                    let platforms = platform_labels(&release.builds);
                    let version = release.version.clone();
                    return Err(SelectError::NoCompatibleBuild { version, platforms });
                },
            }
        }
        i += 1;
    }
    if latest {
        Err(SelectError::NoSuitableVersion)
    } else {
        Err(SelectError::VersionNotFound)
    }
}

/// A supported release that is not a prerelease.
pub open spec fn is_stable(r: Release) -> bool {
    r.state == Lifecycle::Supported && !r.is_prerelease
}

/// For "latest" without prereleases, the build comes from the first
/// supported non-prerelease release; `NoSuitableVersion` comes exactly when
/// there are supported releases and all of them are prereleases.
pub proof fn lemma_latest_stable(
    c: Seq<Release>,
    os: Seq<char>,
    arch: Seq<char>,
    r: Result<Build, SelectError>,
)
    requires
        select_result(c, "latest"@, false, os, arch, r),
    ensures
        r matches Ok(b) ==> exists|i: int, j: int|
            0 <= i < c.len() && is_stable(c[i]) && (forall|k: int|
                0 <= k < i ==> !is_stable(#[trigger] c[k])) && 0 <= j < c[i].builds@.len() && b
                == #[trigger] c[i].builds@[j],
        (r matches Err(SelectError::NoSuitableVersion)) <==> (any_supported(c) && forall|i: int|
            0 <= i < c.len() ==> !is_stable(#[trigger] c[i])),
{
    assert(is_latest("latest"@));
    if any_supported(c) && forall|i: int| 0 <= i < c.len() ==> !is_stable(#[trigger] c[i]) {
        assert(!any_fits(c, "latest"@, false)) by {
            assert forall|i: int| 0 <= i < c.len() implies !release_fits(
                #[trigger] c[i],
                "latest"@,
                false,
            ) by {
                assert(!is_stable(c[i]));
            }
        }
    }
    if let Err(SelectError::NoSuitableVersion) = r {
        assert forall|i: int| 0 <= i < c.len() implies !is_stable(#[trigger] c[i]) by {
            assert(!release_fits(c[i], "latest"@, false));
        }
    }
    if let Ok(b) = r {
        let (i, j) = choose|i: int, j: int|
            is_chosen(c, "latest"@, false, i) && is_chosen_build(c[i].builds@, os, arch, j) && b
                == #[trigger] c[i].builds@[j];
        assert forall|k: int| 0 <= k < i implies !is_stable(#[trigger] c[k]) by {
            assert(!release_fits(c[k], "latest"@, false));
        }
    }
}

/// For "latest" with prereleases allowed, the build comes from the first
/// supported release, prerelease or not, and `NoSuitableVersion` never comes.
pub proof fn lemma_latest_any(c: Seq<Release>, os: Seq<char>, arch: Seq<char>, r: Result<Build, SelectError>)
    requires
        select_result(c, "latest"@, true, os, arch, r),
    ensures
        r matches Ok(b) ==> exists|i: int, j: int|
            0 <= i < c.len() && c[i].state == Lifecycle::Supported && (forall|k: int|
                0 <= k < i ==> (#[trigger] c[k]).state != Lifecycle::Supported) && 0 <= j
                < c[i].builds@.len() && b == #[trigger] c[i].builds@[j],
        !(r matches Err(SelectError::NoSuitableVersion)),
        !(r matches Err(SelectError::VersionNotFound)),
{
    assert(is_latest("latest"@));
    if any_supported(c) {
        let i = choose|i: int| 0 <= i < c.len() && (#[trigger] c[i]).state == Lifecycle::Supported;
        assert(release_fits(c[i], "latest"@, true));
    }
    if let Ok(b) = r {
        let (i, j) = choose|i: int, j: int|
            is_chosen(c, "latest"@, true, i) && is_chosen_build(c[i].builds@, os, arch, j) && b
                == #[trigger] c[i].builds@[j];
        assert forall|k: int| 0 <= k < i implies (#[trigger] c[k]).state != Lifecycle::Supported by {
            assert(!release_fits(c[k], "latest"@, true));
        }
    }
}

/// No two supported releases share a version.
pub open spec fn versions_unique(c: Seq<Release>) -> bool {
    forall|i: int, k: int|
        0 <= i < c.len() && 0 <= k < c.len() && (#[trigger] c[i]).state == Lifecycle::Supported
            && (#[trigger] c[k]).state == Lifecycle::Supported && c[i].version@ == c[k].version@
            ==> i == k
}

proof fn lemma_chosen_by_version(c1: Seq<Release>, c2: Seq<Release>, v: Seq<char>, allow: bool, i1: int)
    requires
        !is_latest(v),
        forall|x: Release| c1.contains(x) <==> c2.contains(x),
        versions_unique(c2),
        is_chosen(c1, v, allow, i1),
    ensures
        exists|i2: int| #[trigger] is_chosen(c2, v, allow, i2) && c2[i2] == c1[i1],
{
    assert(c1.contains(c1[i1]));
    let i2 = choose|i2: int| 0 <= i2 < c2.len() && c2[i2] == c1[i1];
    assert forall|k: int| 0 <= k < i2 implies !release_fits(#[trigger] c2[k], v, allow) by {
        if release_fits(c2[k], v, allow) {
            assert(c2[k].state == Lifecycle::Supported && c2[i2].state == Lifecycle::Supported);
        }
    }
    assert(is_chosen(c2, v, allow, i2));
}

/// A request for a given version is answered by the supported release with
/// that version wherever it stands: two catalogs that list the same releases
/// in any order, with versions unique among supported releases, give the
/// same build, or both fail to find the version.
pub proof fn lemma_version_order_independent(
    c1: Seq<Release>,
    c2: Seq<Release>,
    v: Seq<char>,
    allow: bool,
    os: Seq<char>,
    arch: Seq<char>,
    r1: Result<Build, SelectError>,
    r2: Result<Build, SelectError>,
)
    requires
        !is_latest(v),
        forall|x: Release| c1.contains(x) <==> c2.contains(x),
        versions_unique(c1),
        versions_unique(c2),
        select_result(c1, v, allow, os, arch, r1),
        select_result(c2, v, allow, os, arch, r2),
    ensures
        (r1 is Ok) <==> (r2 is Ok),
        r1 matches Ok(b1) ==> (r2 matches Ok(b2) ==> b1 == b2),
        (r1 matches Err(SelectError::VersionNotFound)) <==> (r2 matches Err(SelectError::VersionNotFound)),
{
    if any_supported(c1) {
        let i = choose|i: int| 0 <= i < c1.len() && (#[trigger] c1[i]).state == Lifecycle::Supported;
        assert(c1.contains(c1[i]));
        let k = choose|k: int| 0 <= k < c2.len() && c2[k] == c1[i];
        assert(c2[k].state == Lifecycle::Supported);
    }
    if any_supported(c2) {
        let i = choose|i: int| 0 <= i < c2.len() && (#[trigger] c2[i]).state == Lifecycle::Supported;
        assert(c2.contains(c2[i]));
        let k = choose|k: int| 0 <= k < c1.len() && c1[k] == c2[i];
        assert(c1[k].state == Lifecycle::Supported);
    }
    if any_fits(c1, v, allow) {
        let i = choose|i: int| 0 <= i < c1.len() && release_fits(#[trigger] c1[i], v, allow);
        assert(c1.contains(c1[i]));
        let k = choose|k: int| 0 <= k < c2.len() && c2[k] == c1[i];
        assert(release_fits(c2[k], v, allow));
    }
    if any_fits(c2, v, allow) {
        let i = choose|i: int| 0 <= i < c2.len() && release_fits(#[trigger] c2[i], v, allow);
        assert(c2.contains(c2[i]));
        let k = choose|k: int| 0 <= k < c1.len() && c1[k] == c2[i];
        assert(release_fits(c1[k], v, allow));
    }
    if let Ok(b1) = r1 {
        let (i1, j1) = choose|i: int, j: int|
            is_chosen(c1, v, allow, i) && is_chosen_build(c1[i].builds@, os, arch, j) && b1
                == #[trigger] c1[i].builds@[j];
        lemma_chosen_by_version(c1, c2, v, allow, i1);
        let i2 = choose|i2: int| #[trigger] is_chosen(c2, v, allow, i2) && c2[i2] == c1[i1];
        if let Ok(b2) = r2 {
            let (k2, j2) = choose|i: int, j: int|
                is_chosen(c2, v, allow, i) && is_chosen_build(c2[i].builds@, os, arch, j) && b2
                    == #[trigger] c2[i].builds@[j];
            assert(k2 == i2);
            if j1 < j2 {
                assert(!build_fits(c2[k2].builds@[j1], os, arch));
            } else if j2 < j1 {
                assert(!build_fits(c1[i1].builds@[j2], os, arch));
            }
        } else if let Err(SelectError::NoCompatibleBuild { version, platforms }) = r2 {
            let k2 = choose|i: int|
                #[trigger] is_chosen(c2, v, allow, i) && !any_build_fits(c2[i].builds@, os, arch);
            assert(k2 == i2);
            assert(build_fits(c1[i1].builds@[j1], os, arch));
        }
    }
    if let Ok(b2) = r2 {
        let (i2, j2) = choose|i: int, j: int|
            is_chosen(c2, v, allow, i) && is_chosen_build(c2[i].builds@, os, arch, j) && b2
                == #[trigger] c2[i].builds@[j];
        lemma_chosen_by_version(c2, c1, v, allow, i2);
        let i1 = choose|i1: int| #[trigger] is_chosen(c1, v, allow, i1) && c1[i1] == c2[i2];
        if let Err(SelectError::NoCompatibleBuild { version, platforms }) = r1 {
            let k1 = choose|i: int|
                #[trigger] is_chosen(c1, v, allow, i) && !any_build_fits(c1[i].builds@, os, arch);
            assert(k1 == i1);
            assert(build_fits(c2[i2].builds@[j2], os, arch));
        }
    }
}

/// Builds are matched on the exact `(os, arch)` pair: a returned build has
/// both, and when the chosen release has no build with both, the result is
/// `NoCompatibleBuild` listing every platform of that release, however close
/// one of them comes.
pub proof fn lemma_exact_platform(
    c: Seq<Release>,
    req: Seq<char>,
    allow_prerelease: bool,
    os: Seq<char>,
    arch: Seq<char>,
    r: Result<Build, SelectError>,
    i: int,
)
    requires
        select_result(c, req, allow_prerelease, os, arch, r),
    ensures
        r matches Ok(b) ==> b.os@ == os && b.arch@ == arch,
        is_chosen(c, req, allow_prerelease, i) && !any_build_fits(c[i].builds@, os, arch) ==> (
        r matches Err(SelectError::NoCompatibleBuild { version, platforms }) && version@
            == c[i].version@ && labels_of(platforms@, c[i].builds@)),
{
    if is_chosen(c, req, allow_prerelease, i) {
        assert(any_fits(c, req, allow_prerelease));
        assert(any_supported(c));
        if let Ok(b) = r {
            let (k, j) = choose|k: int, j: int|
                is_chosen(c, req, allow_prerelease, k) && is_chosen_build(c[k].builds@, os, arch, j) && b
                    == #[trigger] c[k].builds@[j];
            if k < i {
                assert(!release_fits(c[k], req, allow_prerelease));
            } else if i < k {
                assert(!release_fits(c[i], req, allow_prerelease));
            }
        }
        if let Err(SelectError::NoCompatibleBuild { version, platforms }) = r {
            let k = choose|k: int|
                #[trigger] is_chosen(c, req, allow_prerelease, k) && !any_build_fits(c[k].builds@, os, arch)
                    && version@ == c[k].version@ && labels_of(platforms@, c[k].builds@);
            if k < i {
                assert(!release_fits(c[k], req, allow_prerelease));
            } else if i < k {
                assert(!release_fits(c[i], req, allow_prerelease));
            }
        }
    }
}

} // verus!
