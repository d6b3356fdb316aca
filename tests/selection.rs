use hcd::catalog::{lifecycle_of, select, Build, Lifecycle, Release, SelectError};

fn build(os: &str, arch: &str, url: &str) -> Build {
    Build { os: os.to_string(), arch: arch.to_string(), url: url.to_string() }
}

fn release(version: &str, state: Lifecycle, pre: bool, builds: Vec<Build>) -> Release {
    Release { version: version.to_string(), state, is_prerelease: pre, builds }
}

fn sample_catalog() -> Vec<Release> {
    vec![
        release(
            "2.0.0",
            Lifecycle::Supported,
            false,
            vec![build("linux", "amd64", "https://r/2.0.0/linux_amd64.zip"), build("darwin", "arm64", "https://r/2.0.0/darwin_arm64.zip")],
        ),
        release(
            "2.0.0-rc1",
            Lifecycle::Supported,
            true,
            vec![build("linux", "amd64", "https://r/2.0.0-rc1/linux_amd64.zip")],
        ),
    ]
}

#[test]
fn latest_without_prerelease_picks_stable() {
    let c = sample_catalog();
    let b = match select(&c, "latest", false, "linux", "amd64") {
        Ok(b) => b,
        Err(_) => panic!("expected a build"),
    };
    assert_eq!(b.url, "https://r/2.0.0/linux_amd64.zip");
}

#[test]
fn latest_with_prerelease_picks_first() {
    let mut c = sample_catalog();
    c.swap(0, 1);
    let b = match select(&c, "latest", true, "linux", "amd64") {
        Ok(b) => b,
        Err(_) => panic!("expected a build"),
    };
    assert_eq!(b.url, "https://r/2.0.0-rc1/linux_amd64.zip");
}

#[test]
fn latest_with_prerelease_on_newest_first_catalog() {
    let c = vec![
        release("2.0.0-rc1", Lifecycle::Supported, true, vec![build("linux", "amd64", "rc")]),
        release("2.0.0", Lifecycle::Supported, false, vec![build("linux", "amd64", "stable")]),
    ];
    match select(&c, "latest", true, "linux", "amd64") {
        Ok(b) => assert_eq!(b.url, "rc"),
        Err(_) => panic!("expected a build"),
    }
    match select(&c, "latest", false, "linux", "amd64") {
        Ok(b) => assert_eq!(b.url, "stable"),
        Err(_) => panic!("expected a build"),
    }
}

#[test]
fn latest_with_prerelease_on_listed_catalog() {
    let c = sample_catalog();
    let b = match select(&c, "latest", true, "linux", "amd64") {
        Ok(b) => b,
        Err(_) => panic!("expected a build"),
    };
    assert_eq!(b.url, "https://r/2.0.0/linux_amd64.zip");
}

#[test]
fn missing_version_is_reported() {
    let c = sample_catalog();
    assert!(matches!(select(&c, "1.0.0", false, "linux", "amd64"), Err(SelectError::VersionNotFound)));
}

#[test]
fn exact_version_found_in_any_position() {
    let c = vec![
        release("3.0.0", Lifecycle::Supported, false, vec![build("linux", "amd64", "three")]),
        release("1.0.0", Lifecycle::Supported, false, vec![build("linux", "amd64", "one")]),
        release("2.0.0", Lifecycle::Supported, false, vec![build("linux", "amd64", "two")]),
    ];
    match select(&c, "1.0.0", false, "linux", "amd64") {
        Ok(b) => assert_eq!(b.url, "one"),
        Err(_) => panic!("expected a build"),
    }
}

#[test]
fn unsupported_version_is_not_selected() {
    let c = vec![
        release("1.0.0", Lifecycle::Unsupported, false, vec![build("linux", "amd64", "old")]),
        release("2.0.0", Lifecycle::Supported, false, vec![build("linux", "amd64", "new")]),
    ];
    assert!(matches!(select(&c, "1.0.0", false, "linux", "amd64"), Err(SelectError::VersionNotFound)));
}

#[test]
fn close_platform_is_not_accepted() {
    let c = sample_catalog();
    match select(&c, "latest", false, "linux", "arm64") {
        Err(SelectError::NoCompatibleBuild { version, platforms }) => {
            assert_eq!(version, "2.0.0");
            assert_eq!(platforms, vec!["linux/amd64".to_string(), "darwin/arm64".to_string()]);
        }
        _ => panic!("expected NoCompatibleBuild"),
    }
}

#[test]
fn first_matching_build_wins() {
    let c = vec![release(
        "1.0.0",
        Lifecycle::Supported,
        false,
        vec![build("linux", "amd64", "first"), build("linux", "amd64", "second")],
    )];
    match select(&c, "latest", false, "linux", "amd64") {
        Ok(b) => assert_eq!(b.url, "first"),
        Err(_) => panic!("expected a build"),
    }
}

#[test]
fn empty_catalog_is_product_not_found() {
    let c: Vec<Release> = Vec::new();
    assert!(matches!(select(&c, "latest", false, "linux", "amd64"), Err(SelectError::ProductNotFound)));
}

#[test]
fn no_supported_release() {
    let c = vec![
        release("1.0.0", Lifecycle::Unsupported, false, vec![build("linux", "amd64", "a")]),
        release("0.9.0", Lifecycle::Other, false, vec![build("linux", "amd64", "b")]),
    ];
    assert!(matches!(select(&c, "latest", true, "linux", "amd64"), Err(SelectError::NoSupportedVersion)));
}

#[test]
fn only_prereleases_without_permission() {
    let c = vec![release("2.0.0-beta", Lifecycle::Supported, true, vec![build("linux", "amd64", "b")])];
    assert!(matches!(select(&c, "latest", false, "linux", "amd64"), Err(SelectError::NoSuitableVersion)));
}

#[test]
fn lifecycle_strings() {
    assert_eq!(lifecycle_of("supported"), Lifecycle::Supported);
    assert_eq!(lifecycle_of("unsupported"), Lifecycle::Unsupported);
    assert_eq!(lifecycle_of("Supported"), Lifecycle::Other);
    assert_eq!(lifecycle_of(""), Lifecycle::Other);
}

#[test]
fn platform_label_of_build() {
    assert_eq!(build("windows", "386", "u").platform(), "windows/386");
}
