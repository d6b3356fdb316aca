use hcd::archive::{extract_executables, ArchiveError, ExtractedFile};
use hcd::backend::{after_attempt, backend_chain, scratch_dir_name, Backend, ChainStep, HostKind};
use hcd::download::{check_transfer_status, partial_name, plan_download, FetchError};
use hcd::placement::plan_placement;
use hcd::platform::{arch_alias, is_all_products, os_alias};
use std::io::Write;

fn zip_of(entries: &[(&str, &[u8])]) -> Vec<u8> {
    let mut w = zip::ZipWriter::new(std::io::Cursor::new(Vec::new()));
    for (name, data) in entries {
        if name.ends_with('/') {
            w.add_directory(*name, zip::write::SimpleFileOptions::default()).unwrap();
        } else {
            w.start_file(*name, zip::write::SimpleFileOptions::default()).unwrap();
            w.write_all(data).unwrap();
        }
    }
    w.finish().unwrap().into_inner()
}

fn sample_archive(tag: &[u8]) -> Vec<u8> {
    let mut app = b"app ".to_vec();
    app.extend_from_slice(tag);
    let mut helper = b"helper ".to_vec();
    helper.extend_from_slice(tag);
    zip_of(&[("app.exe", &app), ("readme.txt", b"read me"), ("sub/", b""), ("sub/helper.exe", &helper)])
}

/// Places files into a directory modelled as (name, content) pairs.
fn place_all(dir: &mut Vec<(String, Vec<u8>)>, files: Vec<ExtractedFile>, force: bool) -> usize {
    let mut count = 0;
    for f in files {
        let names: Vec<String> = dir.iter().map(|(n, _)| n.clone()).collect();
        let plan = plan_placement(&f.name, &names, force);
        if plan.replace_existing {
            dir.retain(|(n, _)| *n != plan.name);
        }
        assert!(!dir.iter().any(|(n, _)| *n == plan.name));
        dir.push((plan.name, f.data));
        count += 1;
    }
    count
}

fn sorted_names(dir: &[(String, Vec<u8>)]) -> Vec<String> {
    let mut v: Vec<String> = dir.iter().map(|(n, _)| n.clone()).collect();
    v.sort();
    v
}

#[test]
fn only_executables_are_taken() {
    let files = match extract_executables(sample_archive(b"v1")) {
        Ok(f) => f,
        Err(_) => panic!("archive should read"),
    };
    assert_eq!(files.len(), 2);
    assert_eq!(files[0].name, "app.exe");
    assert_eq!(files[0].data, b"app v1".to_vec());
    assert_eq!(files[1].name, "helper.exe");
    assert_eq!(files[1].data, b"helper v1".to_vec());
}

#[test]
fn extract_into_empty_destination() {
    let mut dir = Vec::new();
    let files = extract_executables(sample_archive(b"v1")).ok().unwrap();
    assert_eq!(place_all(&mut dir, files, false), 2);
    assert_eq!(sorted_names(&dir), vec!["app.exe".to_string(), "helper.exe".to_string()]);
}

#[test]
fn extract_again_without_force_adds_suffixed_copies() {
    let mut dir = Vec::new();
    place_all(&mut dir, extract_executables(sample_archive(b"v1")).ok().unwrap(), false);
    place_all(&mut dir, extract_executables(sample_archive(b"v2")).ok().unwrap(), false);
    assert_eq!(
        sorted_names(&dir),
        vec!["app-1.exe".to_string(), "app.exe".to_string(), "helper-1.exe".to_string(), "helper.exe".to_string()]
    );
    let app = dir.iter().find(|(n, _)| n == "app.exe").unwrap();
    assert_eq!(app.1, b"app v1".to_vec());
    let app1 = dir.iter().find(|(n, _)| n == "app-1.exe").unwrap();
    assert_eq!(app1.1, b"app v2".to_vec());
}

#[test]
fn extract_again_with_force_replaces() {
    let mut dir = Vec::new();
    place_all(&mut dir, extract_executables(sample_archive(b"v1")).ok().unwrap(), false);
    place_all(&mut dir, extract_executables(sample_archive(b"v2")).ok().unwrap(), true);
    assert_eq!(sorted_names(&dir), vec!["app.exe".to_string(), "helper.exe".to_string()]);
    let helper = dir.iter().find(|(n, _)| n == "helper.exe").unwrap();
    assert_eq!(helper.1, b"helper v2".to_vec());
}

#[test]
fn entries_outside_the_root_are_skipped() {
    let bytes = zip_of(&[("../evil.exe", b"x"), ("/abs.exe", b"y"), ("ok/Tool.EXE", b"z")]);
    let files = extract_executables(bytes).ok().unwrap();
    assert_eq!(files.len(), 1);
    assert_eq!(files[0].name, "Tool.EXE");
}

#[test]
fn directory_entries_are_not_files() {
    let files = extract_executables(zip_of(&[("tools.exe/", b""), ("tools.exe/run.exe", b"r")])).ok().unwrap();
    assert_eq!(files.len(), 1);
    assert_eq!(files[0].name, "run.exe");
    assert_eq!(files[0].data, b"r".to_vec());
}

#[test]
fn archive_without_executables() {
    let files = extract_executables(zip_of(&[("notes.md", b"n")])).ok().unwrap();
    assert!(files.is_empty());
}

#[test]
fn garbage_is_not_an_archive() {
    assert!(matches!(extract_executables(b"not a zip".to_vec()), Err(ArchiveError::Invalid)));
}

#[test]
fn chains_end_with_builtin() {
    assert_eq!(backend_chain(HostKind::Windows), vec![Backend::NativeExpand, Backend::BuiltIn]);
    assert_eq!(
        backend_chain(HostKind::MacOs),
        vec![Backend::Unzip, Backend::Ditto, Backend::Bsdtar, Backend::BuiltIn]
    );
    assert_eq!(backend_chain(HostKind::OtherUnix), vec![Backend::Unzip, Backend::Bsdtar, Backend::BuiltIn]);
    assert_eq!(backend_chain(HostKind::Other), vec![Backend::BuiltIn]);
}

#[test]
fn chain_steps() {
    let chain = backend_chain(HostKind::OtherUnix);
    assert_eq!(after_attempt(&chain, 0, false), ChainStep::Next(1));
    assert_eq!(after_attempt(&chain, 1, true), ChainStep::Drain);
    assert_eq!(after_attempt(&chain, 2, false), ChainStep::Exhausted);
}

#[test]
fn scratch_names() {
    assert_eq!(scratch_dir_name(1700000000123, 2), ".hcd_extract_1700000000123_2");
}

#[test]
fn download_plans() {
    let url = "https://releases.example.com/consul/1.0.0/consul_1.0.0_linux_amd64.zip";
    let none: Vec<String> = Vec::new();
    let p = plan_download(url, &none, false).ok().unwrap();
    assert_eq!(p.file_name, "consul_1.0.0_linux_amd64.zip");
    assert!(p.fetch);
    let present = vec!["consul_1.0.0_linux_amd64.zip".to_string()];
    assert!(!plan_download(url, &present, false).ok().unwrap().fetch);
    assert!(plan_download(url, &present, true).ok().unwrap().fetch);
    assert!(matches!(plan_download("https://example.com/", &none, false), Err(FetchError::InvalidUrl)));
    assert_eq!(partial_name("a.zip"), "a.zip.part");
}

#[test]
fn platform_aliases() {
    assert_eq!(os_alias("macos"), Some("darwin".to_string()));
    assert_eq!(os_alias("linux"), Some("linux".to_string()));
    assert_eq!(os_alias("solaris"), None);
    assert_eq!(arch_alias("x86_64"), Some("amd64".to_string()));
    assert_eq!(arch_alias("i686"), Some("386".to_string()));
    assert_eq!(arch_alias("riscv64"), None);
}

#[test]
fn all_products_sentinel() {
    assert!(is_all_products("all"));
    assert!(is_all_products("ALL"));
    assert!(is_all_products("All"));
    assert!(!is_all_products("al"));
    assert!(!is_all_products("terraform"));
}

#[test]
fn transfer_status_codes() {
    assert!(check_transfer_status(200).is_ok());
    assert!(check_transfer_status(204).is_ok());
    assert!(check_transfer_status(299).is_ok());
    assert!(matches!(check_transfer_status(199), Err(FetchError::TransferFailed)));
    assert!(matches!(check_transfer_status(300), Err(FetchError::TransferFailed)));
    assert!(matches!(check_transfer_status(404), Err(FetchError::TransferFailed)));
}
