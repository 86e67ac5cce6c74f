//! The lock that processes take turns with.

use conda_ship::bootstrap_lock::{path, LockPathError};

#[test]
fn test_lock_is_adjacent_to_prefix() {
    let prefix = std::path::Path::new("/tmp/somewhere").join("runtime");
    let parent = prefix.parent();
    let name = prefix.file_name().map(|name| name.to_string_lossy().into_owned());

    let lock = parent.unwrap().join(path(parent.is_some(), name.as_deref()).unwrap());

    assert_eq!(lock.parent(), prefix.parent());
    assert!(!lock.starts_with(&prefix));
    assert_eq!(lock.to_str(), Some("/tmp/somewhere/.runtime.conda-ship.lock"));
}

#[test]
fn install_paths_without_a_place_for_a_lock_are_refused() {
    assert_eq!(path(false, Some("runtime")), Err(LockPathError::NoParent));
    assert_eq!(path(true, None), Err(LockPathError::NoFinalComponent));
    assert_eq!(LockPathError::NoParent.message("/"), "install path has no parent directory: /");
    assert_eq!(
        LockPathError::NoFinalComponent.message("a/.."),
        "install path has no final component: a/.."
    );
}

#[test]
fn two_install_paths_have_two_locks() {
    assert_ne!(path(true, Some("a")), path(true, Some("b")));
    assert_ne!(path(true, Some(".a.conda-ship.lock")), path(true, Some("a")));
}
