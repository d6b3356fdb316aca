use hcd::placement::{plan_placement, suffixed};
use hcd::text::{append_decimal, base_name, file_name_from_url, has_msi_ext, has_zip_ext, is_executable_name, str_eq};

#[test]
fn zip_extension() {
    assert!(has_zip_ext("terraform_1.9.3_linux_amd64.zip"));
    assert!(has_zip_ext("pkg.ZIP"));
    assert!(has_zip_ext("x.tar.Zip"));
    assert!(has_zip_ext("dir\\.zip"));
    assert!(!has_zip_ext(".zip"));
    assert!(!has_zip_ext("zip"));
    assert!(!has_zip_ext("archive.zip.sig"));
}

#[test]
fn msi_extension() {
    assert!(has_msi_ext("vault_1.0.0_windows_amd64.msi"));
    assert!(has_msi_ext("Setup.Msi"));
    assert!(!has_msi_ext("setup.msix"));
}

#[test]
fn executable_names() {
    assert!(is_executable_name("app.exe"));
    assert!(is_executable_name("helper.exe"));
    assert!(is_executable_name("APP.EXE"));
    assert!(!is_executable_name("readme.txt"));
    assert!(!is_executable_name(".exe"));
    assert!(!is_executable_name("exe"));
}

#[test]
fn base_names() {
    assert_eq!(base_name("sub/helper.exe"), "helper.exe");
    assert_eq!(base_name("a\\b\\tool.exe"), "tool.exe");
    assert_eq!(base_name("plain"), "plain");
    assert_eq!(base_name("dir/"), "");
}

#[test]
fn url_file_names() {
    assert_eq!(
        file_name_from_url("https://releases.example.com/terraform/1.9.3/terraform_1.9.3_linux_amd64.zip"),
        Some("terraform_1.9.3_linux_amd64.zip".to_string())
    );
    assert_eq!(file_name_from_url("https://releases.example.com/x/"), None);
    assert_eq!(file_name_from_url("name.zip"), Some("name.zip".to_string()));
}

#[test]
fn string_equality() {
    assert!(str_eq("latest", "latest"));
    assert!(!str_eq("latest", "Latest"));
    assert!(!str_eq("a", "ab"));
}

#[test]
fn decimal_notation() {
    let mut s = String::from("n=");
    append_decimal(&mut s, 0);
    assert_eq!(s, "n=0");
    let mut t = String::new();
    append_decimal(&mut t, 1234);
    assert_eq!(t, "1234");
}

#[test]
fn suffix_goes_before_extension() {
    assert_eq!(suffixed("app.exe", 1), "app-1.exe");
    assert_eq!(suffixed("archive.tar.gz", 12), "archive.tar-12.gz");
    assert_eq!(suffixed("README", 3), "README-3");
    assert_eq!(suffixed(".bashrc", 2), ".bashrc-2");
}

#[test]
fn free_name_is_used_as_is() {
    let plan = plan_placement("app.exe", &Vec::new(), false);
    assert_eq!(plan.name, "app.exe");
    assert!(!plan.replace_existing);
}

#[test]
fn taken_name_gets_first_free_suffix() {
    let existing = vec!["app.exe".to_string(), "app-1.exe".to_string(), "app-3.exe".to_string()];
    let plan = plan_placement("app.exe", &existing, false);
    assert_eq!(plan.name, "app-2.exe");
    assert!(!plan.replace_existing);
}

#[test]
fn forced_placement_replaces() {
    let existing = vec!["app.exe".to_string()];
    let plan = plan_placement("app.exe", &existing, true);
    assert_eq!(plan.name, "app.exe");
    assert!(plan.replace_existing);
    let fresh = plan_placement("new.exe", &existing, true);
    assert_eq!(fresh.name, "new.exe");
    assert!(!fresh.replace_existing);
}

#[test]
fn two_sources_same_name_without_force() {
    let mut dir: Vec<String> = Vec::new();
    let first = plan_placement("tool.exe", &dir, false);
    dir.push(first.name.clone());
    let second = plan_placement("tool.exe", &dir, false);
    assert_eq!(first.name, "tool.exe");
    assert_eq!(second.name, "tool-1.exe");
    assert_ne!(first.name, second.name);
}
