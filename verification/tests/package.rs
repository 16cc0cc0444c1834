use arcanum::package::{package_file_name, InMemoryPackageStore, StoreError};
use arcanum::version::{parse_version, version_newer};
use sha2::{Digest, Sha256};
use std::io::Write;

fn tar_of(files: &[(&str, &[u8])]) -> Vec<u8> {
    let mut builder = tar::Builder::new(Vec::new());
    for (path, data) in files {
        let mut header = tar::Header::new_gnu();
        header.set_size(data.len() as u64);
        header.set_mode(0o644);
        header.set_cksum();
        builder.append_data(&mut header, path, *data).unwrap();
    }
    builder.into_inner().unwrap()
}

fn ustar_of(files: &[(&str, &[u8])]) -> Vec<u8> {
    let mut builder = tar::Builder::new(Vec::new());
    for (path, data) in files {
        let mut header = tar::Header::new_ustar();
        header.set_size(data.len() as u64);
        header.set_mode(0o644);
        header.set_cksum();
        builder.append_data(&mut header, path, *data).unwrap();
    }
    builder.into_inner().unwrap()
}

fn gz_of(data: &[u8]) -> Vec<u8> {
    let mut enc = flate2::write::GzEncoder::new(Vec::new(), flate2::Compression::default());
    enc.write_all(data).unwrap();
    enc.finish().unwrap()
}

fn digest(data: &[u8]) -> [u8; 32] {
    Sha256::digest(data).into()
}

#[test]
fn gz_package_is_stored_by_digest() {
    let mut store = InMemoryPackageStore::new();
    let pkg = gz_of(&tar_of(&[("arcanum.toml", b"name = \"test/echo\"\n"), ("main.lua", b"return {}")]));
    let key = match store.add_package(pkg.clone()) {
        Ok(k) => k,
        Err(e) => panic!("refused: {}", e.message()),
    };
    assert_eq!(key, digest(&pkg));
    assert_eq!(store.get_package(&key), Some(pkg.clone()));
    assert_eq!(store.get_asset(&key, "main.lua"), Some(b"return {}".to_vec()));
    assert_eq!(store.get_asset(&key, "missing.lua"), None);
    assert!(matches!(store.add_package(pkg), Err(StoreError::AlreadyExists)));
}

#[test]
fn plain_tar_package_is_unpacked() {
    let mut store = InMemoryPackageStore::new();
    let pkg = ustar_of(&[("main.lua", b"return 1"), ("lib/util.lua", b"return 2")]);
    let key = store.add_package(pkg).ok().unwrap();
    assert_eq!(store.get_asset(&key, "lib/util.lua"), Some(b"return 2".to_vec()));
}

#[test]
fn names_resolve_to_packages() {
    let mut store = InMemoryPackageStore::new();
    let pkg = gz_of(&tar_of(&[("main.lua", b"x")]));
    let key = store.add_package(pkg).ok().unwrap();
    assert_eq!(store.register_package_name(key, Some("test/echo".to_string()), None, None), Some("^test/echo".to_string()));
    assert_eq!(store.register_package_name(key, None, None, None), None);
    assert_eq!(store.resolve_name("^test/echo"), Some(key));
    assert_eq!(store.resolve_name("test/echo"), None);
    assert_eq!(store.get_asset_by_name("^test/echo", "main.lua"), Some(b"x".to_vec()));
    assert_eq!(store.get_asset_by_name("^nobody", "main.lua"), None);
    store.set_name("^alias", key);
    let mut names = store.list_names();
    names.sort();
    assert_eq!(names, vec!["^alias".to_string(), "^test/echo".to_string()]);
    let saved = store.saved_names();
    assert_eq!(saved.len(), 2);
    assert!(saved.iter().all(|(_, d)| d == &key.to_vec()));
}

#[test]
fn restoring_names() {
    let mut store = InMemoryPackageStore::new();
    assert!(!store.restore_name("^short", &vec![1u8; 31]));
    assert_eq!(store.resolve_name("^short"), None);
    assert!(store.restore_name("^ok", &vec![7u8; 32]));
    assert_eq!(store.resolve_name("^ok"), Some([7u8; 32]));
}

#[test]
fn non_archives_are_refused() {
    let mut store = InMemoryPackageStore::new();
    assert!(matches!(store.add_package(b"hello".to_vec()), Err(StoreError::InvalidTarball)));
    assert!(matches!(store.add_package(vec![]), Err(StoreError::InvalidTarball)));
    assert_eq!(StoreError::InvalidTarball.message(), "Invalid tarball");
    assert_eq!(StoreError::AlreadyExists.message(), "Package already exists");
    assert!(store.get_package(&digest(b"hello")).is_none());
}

#[test]
fn broken_archive_reports_the_error_and_keeps_the_package() {
    let mut store = InMemoryPackageStore::new();
    let mut pkg = ustar_of(&[("a.lua", b"1")]);
    // spoil the header checksum
    for b in &mut pkg[148..156] {
        *b = b'9';
    }
    match store.add_package(pkg.clone()) {
        Err(StoreError::Archive(msg)) => assert!(!msg.is_empty()),
        _ => panic!("expected an archive error"),
    }
    assert_eq!(store.get_package(&digest(&pkg)), Some(pkg));
}

#[test]
fn loading_skips_known_packages() {
    let mut store = InMemoryPackageStore::new();
    let pkg = gz_of(&tar_of(&[("main.lua", b"y")]));
    let key = store.load_package(pkg.clone()).unwrap();
    assert_eq!(store.get_asset(&key, "main.lua"), Some(b"y".to_vec()));
    assert_eq!(store.load_package(pkg), None);
    // data that is no archive is still kept
    let k2 = store.load_package(b"plain".to_vec()).unwrap();
    assert_eq!(store.get_package(&k2), Some(b"plain".to_vec()));
}

#[test]
fn file_names_are_hex_digests() {
    let key = [0xabu8; 32];
    let gz = vec![0x1f, 0x8b, 0];
    assert_eq!(package_file_name(&key, &gz), format!("{}.tar.gz", "ab".repeat(32)));
    let mut k2 = [0u8; 32];
    k2[0] = 0x01;
    k2[31] = 0xf0;
    let name = package_file_name(&k2, &vec![0u8; 10]);
    assert_eq!(name, format!("01{}f0.tar", "00".repeat(30)));
}

#[test]
fn versions_parse_as_dotted_numbers() {
    assert_eq!(parse_version("1.0.0"), Some(vec![1, 0, 0]));
    assert_eq!(parse_version("12"), Some(vec![12]));
    assert_eq!(parse_version("2.10.3"), Some(vec![2, 10, 3]));
    assert_eq!(parse_version(""), None);
    assert_eq!(parse_version("1..2"), None);
    assert_eq!(parse_version("1.2."), None);
    assert_eq!(parse_version("v1.2"), None);
    assert_eq!(parse_version("1.2.0-beta"), None);
}

#[test]
fn versions_compare_part_by_part() {
    assert!(version_newer(&vec![2, 0, 0], &vec![1, 0, 0]));
    assert!(!version_newer(&vec![1, 0, 0], &vec![2, 0, 0]));
    assert!(!version_newer(&vec![4, 0, 0], &vec![5, 0, 0]));
    assert!(version_newer(&vec![1, 10], &vec![1, 9, 9]));
    assert!(!version_newer(&vec![1, 0, 0], &vec![1, 0, 0]));
    // a missing part counts as 0
    assert!(!version_newer(&vec![1, 0], &vec![1]));
    assert!(version_newer(&vec![1, 0, 1], &vec![1]));
}

#[test]
fn newer_packages_take_over_names() {
    let mut store = InMemoryPackageStore::new();
    let v1 = store.load_package(gz_of(&tar_of(&[("main.lua", b"v1")]))).unwrap();
    assert_eq!(
        store.register_package_name(v1, Some("test/reload".to_string()), None, Some("1.0.0".to_string())),
        Some("^test/reload".to_string())
    );
    let v2 = store.load_package(gz_of(&tar_of(&[("main.lua", b"v2")]))).unwrap();
    assert_eq!(
        store.offer_package_name(v2, Some("test/reload".to_string()), None, Some("2.0.0".to_string())),
        Some("^test/reload".to_string())
    );
    assert_eq!(store.resolve_name("^test/reload"), Some(v2));
    // an older or equal version, or none at all, does not
    let v0 = store.load_package(gz_of(&tar_of(&[("main.lua", b"v0")]))).unwrap();
    assert_eq!(store.offer_package_name(v0, Some("test/reload".to_string()), None, Some("1.5.0".to_string())), None);
    assert_eq!(store.offer_package_name(v0, Some("test/reload".to_string()), None, Some("2.0.0".to_string())), None);
    assert_eq!(store.offer_package_name(v0, Some("test/reload".to_string()), None, None), None);
    assert_eq!(store.resolve_name("^test/reload"), Some(v2));
    // the old package is still there
    assert_eq!(store.get_asset(&v1, "main.lua"), Some(b"v1".to_vec()));
    // a new name is taken whatever the version
    assert_eq!(
        store.offer_package_name(v0, None, Some("test/other".to_string()), None),
        Some("^test/other".to_string())
    );
    assert_eq!(store.resolve_name("^test/other"), Some(v0));
}

#[test]
fn storing_read_entries() {
    let mut store = InMemoryPackageStore::new();
    let key = [7u8; 32];
    let items: Vec<Result<(String, Vec<u8>), String>> = vec![
        Ok(("a.lua".to_string(), b"x".to_vec())),
        Err("bad entry".to_string()),
        Ok(("b.lua".to_string(), b"y".to_vec())),
    ];
    // lenient: the bad entry is skipped
    assert_eq!(store.store_files(&key, &items, false), None);
    assert_eq!(store.get_asset(&key, "b.lua"), Some(b"y".to_vec()));
    // strict: caching stops at the bad entry and reports it
    let key2 = [8u8; 32];
    assert_eq!(store.store_files(&key2, &items, true), Some("bad entry".to_string()));
    assert_eq!(store.get_asset(&key2, "a.lua"), Some(b"x".to_vec()));
    assert_eq!(store.get_asset(&key2, "b.lua"), None);
}
