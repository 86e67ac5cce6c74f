//! Collecting the packages of a bundle.

use conda_ship::bundle_builder::{
    check_download, check_status, clear_stale_path, decide_existing, package_archive_name,
    packages_for_platform, plan_fetch, select_packages, BundleError, ExistingArchive, StaleAction, StalePath,
};
use conda_ship::lock_file::LockedPackage;
use rattler_lock::LockFile;
use sha2::{Digest, Sha256};

const PACKAGE_NAME: &str = "demo-1.0-0.conda";
const PACKAGE_BYTES: &[u8] = b"locked package contents";

fn hex(bytes: &[u8]) -> String {
    bytes.iter().map(|byte| format!("{byte:02x}")).collect()
}

fn package_lock(url: &str, contents: &[u8]) -> LockFile {
    let sha256 = hex(&Sha256::digest(contents));
    LockFile::from_str_with_base_directory(
        &format!(
            "version: 6\nenvironments:\n  default:\n    channels: []\n    packages:\n      linux-64:\n        - conda: {url}\npackages:\n  - conda: {url}\n    sha256: {sha256}\n"
        ),
        None,
    )
    .unwrap()
}

fn package(subdir: &str, name: &str) -> LockedPackage {
    LockedPackage {
        subdir: subdir.to_string(),
        location: format!("https://example.test/{subdir}/{name}"),
        shown_location: String::new(),
        is_url: true,
        path_segments: Some(vec![subdir.to_string(), name.to_string()]),
        has_record: true,
        sha256: Some(Sha256::digest(PACKAGE_BYTES).into()),
    }
}

fn locked_url() -> String {
    format!("https://example.test/linux-64/{PACKAGE_NAME}")
}

#[test]
fn packages_are_read_from_the_default_environment_of_a_lock() {
    let lock = package_lock(&locked_url(), PACKAGE_BYTES);

    let packages = select_packages(&lock, "linux-64").unwrap();

    assert_eq!(packages.len(), 1);
    assert_eq!(packages[0].subdir, "linux-64");
    assert_eq!(packages[0].location, locked_url());
    assert!(packages[0].is_url);
    assert_eq!(
        packages[0].path_segments,
        Some(vec!["linux-64".to_string(), PACKAGE_NAME.to_string()])
    );
    assert_eq!(package_archive_name(&packages[0]), Some(PACKAGE_NAME));
    assert!(packages[0].has_record);
    let digest: [u8; 32] = Sha256::digest(PACKAGE_BYTES).into();
    assert_eq!(packages[0].sha256, Some(digest));
}

#[test]
fn archives_are_named_by_the_last_segment_of_their_path() {
    let url = "https://example.test/b%20c/linux-64/demo-1.0-0.conda?token=x/y";
    let lock = package_lock(&format!("\"{url}\""), PACKAGE_BYTES);

    let package = select_packages(&lock, "linux-64").unwrap().remove(0);

    assert_eq!(package.location, url);
    let segments = ["b%20c", "linux-64", "demo-1.0-0.conda"].map(|segment| segment.to_string());
    assert_eq!(package.path_segments, Some(segments.to_vec()));
    assert_eq!(package_archive_name(&package), Some("demo-1.0-0.conda"));
    assert_eq!(plan_fetch(package, true).ok().unwrap().archive_name, "demo-1.0-0.conda");
}

#[test]
fn packages_without_a_url_are_shown_as_paths() {
    let lock = LockFile::from_str_with_base_directory(
        "version: 6\nenvironments:\n  default:\n    channels: []\n    packages:\n      linux-64:\n        - conda: ./demo-1.0-0.conda\npackages:\n  - conda: ./demo-1.0-0.conda\n    subdir: linux-64\n",
        None,
    )
    .unwrap();

    let package = select_packages(&lock, "linux-64").unwrap().remove(0);

    assert!(!package.is_url);
    assert_eq!(package.path_segments, None);
    assert!(package.shown_location.contains("Path("));
    assert_eq!(plan_fetch(package, true).err().unwrap(), BundleError::NotUrl);
}

#[test]
fn locks_without_packages_for_the_platform_are_refused() {
    let lock = package_lock(&locked_url(), PACKAGE_BYTES);
    let other = LockFile::from_str_with_base_directory(
        "version: 6\nenvironments:\n  other:\n    channels: []\n    packages: {}\npackages: []\n",
        None,
    )
    .unwrap();

    let error = select_packages(&lock, "osx-arm64").err().unwrap();
    assert_eq!(error, BundleError::NoPackages);
    assert_eq!(
        error.message("runtime.lock", "osx-arm64"),
        "no packages for platform osx-arm64 in runtime.lock"
    );
    let error = select_packages(&other, "linux-64").err().unwrap();
    assert_eq!(error, BundleError::NoDefaultEnvironment);
    assert_eq!(error.message("runtime.lock", ""), "no default environment in runtime.lock");
}

#[test]
fn packages_are_picked_by_their_platform_in_order() {
    let listed = vec![
        package("linux-64", "a-1-0.conda"),
        package("osx-64", "b-1-0.conda"),
        package("linux-64", "c-1-0.conda"),
    ];

    let names: Vec<String> = packages_for_platform(listed, "linux-64")
        .into_iter()
        .map(|package| package_archive_name(&package).unwrap().to_string())
        .collect();

    assert_eq!(names, ["a-1-0.conda", "c-1-0.conda"]);
}

#[test]
fn packages_are_downloaded_under_a_hidden_name() {
    let plan = plan_fetch(package("linux-64", PACKAGE_NAME), true).ok().unwrap();

    assert_eq!(plan.archive_name, PACKAGE_NAME);
    assert_eq!(plan.temporary_name, ".demo-1.0-0.conda.download");
    let digest: [u8; 32] = Sha256::digest(PACKAGE_BYTES).into();
    assert_eq!(plan.expected, digest);
}

#[test]
fn packages_that_cannot_be_fetched_are_refused() {
    let mut local = package("linux-64", PACKAGE_NAME);
    local.is_url = false;
    let mut unnamed = package("linux-64", PACKAGE_NAME);
    unnamed.path_segments = None;
    let mut unrecorded = package("linux-64", PACKAGE_NAME);
    unrecorded.has_record = false;
    let mut unhashed = package("linux-64", PACKAGE_NAME);
    unhashed.sha256 = None;

    for (package, is_valid_name, error, message) in [
        (local, true, BundleError::NotUrl, "package location is not a URL: x"),
        (unnamed, true, BundleError::NoArchiveName, "package URL has no archive name: x"),
        (
            package("linux-64", ".."),
            false,
            BundleError::InvalidArchiveName,
            "invalid package archive name from x: y",
        ),
        (
            unrecorded,
            true,
            BundleError::MissingRecord,
            "x is missing its package record in the runtime lock",
        ),
        (unhashed, true, BundleError::MissingSha256, "x has no SHA256 in the runtime lock"),
    ] {
        let found = plan_fetch(package, is_valid_name).err().unwrap();
        assert_eq!(found, error);
        assert_eq!(found.message("x", "y"), message);
    }
}

#[test]
fn archives_are_kept_only_where_they_are_the_locked_ones() {
    let plan = plan_fetch(package("linux-64", PACKAGE_NAME), true).ok().unwrap();

    assert_eq!(decide_existing(&plan, None), ExistingArchive::Download);
    assert_eq!(decide_existing(&plan, Some(PACKAGE_BYTES)), ExistingArchive::Keep);
    assert_eq!(decide_existing(&plan, Some(b"other contents")), ExistingArchive::Replace);
    assert_eq!(check_download(&plan, PACKAGE_BYTES), Ok(()));
    let error = check_download(&plan, b"different locked contents").unwrap_err();
    assert_eq!(error.message(PACKAGE_NAME, ""), "SHA256 mismatch for demo-1.0-0.conda");
}

#[test]
fn responses_have_to_be_successes() {
    assert_eq!(check_status(200), Ok(()));
    assert_eq!(check_status(299), Ok(()));
    assert_eq!(check_status(199), Err(BundleError::HttpStatus(199)));
    assert_eq!(check_status(300), Err(BundleError::HttpStatus(300)));
    let error = check_status(503).unwrap_err();
    assert_eq!(
        error.message(PACKAGE_NAME, "503 Service Unavailable"),
        "HTTP 503 Service Unavailable fetching demo-1.0-0.conda"
    );
}

#[test]
fn stale_links_are_removed_without_what_they_lead_to() {
    assert_eq!(clear_stale_path(StalePath::Missing), StaleAction::Nothing);
    assert_eq!(clear_stale_path(StalePath::Symlink), StaleAction::RemoveFile);
    assert_eq!(clear_stale_path(StalePath::File), StaleAction::RemoveFile);
    assert_eq!(clear_stale_path(StalePath::Other), StaleAction::RemoveTree);
}
