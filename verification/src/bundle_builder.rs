//! Collecting the packages of a bundle.

use rattler_lock::LockFile;
use vstd::multiset::Multiset;
use vstd::prelude::*;
use vstd::string::*;

use crate::bytes::same_bytes;
use crate::digest;
use crate::digest::sha256;
use crate::lock_file;
use crate::lock_file::{default_environment_packages, LockedPackage, PackageView};
use crate::text::same_text;

verus! {

/// Why a bundle cannot be made.
#[derive(Clone, Copy, Debug, PartialEq, Eq)]
pub enum BundleError {
    /// The lock has no default environment.
    NoDefaultEnvironment,
    /// The lock has no packages for the platform.
    NoPackages,
    /// A package is not named by a URL.
    NotUrl,
    /// The URL of a package does not end in a name.
    NoArchiveName,
    /// The URL of a package ends in a name that no archive may have.
    InvalidArchiveName,
    /// The lock has no record of a package.
    MissingRecord,
    /// The lock has no SHA-256 digest of a package.
    MissingSha256,
    /// A package could not be downloaded.
    HttpStatus(u16),
    /// A package is not the one that was locked.
    Sha256Mismatch,
}

/// The text of a bundle error. What it is about, `subject`, is the path of the lock, the location
/// of the package or the name of its archive; `detail` is the platform, the reason or the status.
pub open spec fn bundle_error_text(error: BundleError, subject: Seq<char>, detail: Seq<char>) -> Seq<
    char,
> {
    match error {
        BundleError::NoDefaultEnvironment => "no default environment in "@ + subject,
        BundleError::NoPackages => "no packages for platform "@ + detail + " in "@ + subject,
        BundleError::NotUrl => "package location is not a URL: "@ + subject,
        BundleError::NoArchiveName => "package URL has no archive name: "@ + subject,
        BundleError::InvalidArchiveName => "invalid package archive name from "@ + subject + ": "@
            + detail,
        BundleError::MissingRecord => subject
            + " is missing its package record in the runtime lock"@,
        BundleError::MissingSha256 => subject + " has no SHA256 in the runtime lock"@,
        BundleError::HttpStatus(_) => "HTTP "@ + detail + " fetching "@ + subject,
        BundleError::Sha256Mismatch => "SHA256 mismatch for "@ + subject,
    }
}

impl BundleError {
    /// The error as text. What it is about, `subject`, is the path of the lock, the location of
    /// the package or the name of its archive; `detail` is the platform, the reason or the
    /// status.
    pub fn message(&self, subject: &str, detail: &str) -> (text: String)
        ensures
            text@ == bundle_error_text(*self, subject@, detail@),
            text@ == (match *self {
                BundleError::NoDefaultEnvironment => "no default environment in "@ + subject@,
                BundleError::NoPackages => "no packages for platform "@ + detail@ + " in "@
                    + subject@,
                BundleError::NotUrl => "package location is not a URL: "@ + subject@,
                BundleError::NoArchiveName => "package URL has no archive name: "@ + subject@,
                BundleError::InvalidArchiveName => "invalid package archive name from "@
                    + subject@ + ": "@ + detail@,
                BundleError::MissingRecord => subject@
                    + " is missing its package record in the runtime lock"@,
                BundleError::MissingSha256 => subject@ + " has no SHA256 in the runtime lock"@,
                BundleError::HttpStatus(_) => "HTTP "@ + detail@ + " fetching "@ + subject@,
                BundleError::Sha256Mismatch => "SHA256 mismatch for "@ + subject@,
            }),
    {
        let mut text: String = String::new();
        match self {
            BundleError::NoDefaultEnvironment => {
                text.append("no default environment in ");
                text.append(subject);
            },
            BundleError::NoPackages => {
                text.append("no packages for platform ");
                text.append(detail);
                text.append(" in ");
                text.append(subject);
            },
            BundleError::NotUrl => {
                text.append("package location is not a URL: ");
                text.append(subject);
            },
            BundleError::NoArchiveName => {
                text.append("package URL has no archive name: ");
                text.append(subject);
            },
            BundleError::InvalidArchiveName => {
                text.append("invalid package archive name from ");
                text.append(subject);
                text.append(": ");
                text.append(detail);
            },
            BundleError::MissingRecord => {
                text.append(subject);
                text.append(" is missing its package record in the runtime lock");
            },
            BundleError::MissingSha256 => {
                text.append(subject);
                text.append(" has no SHA256 in the runtime lock");
            },
            BundleError::HttpStatus(_) => {
                text.append("HTTP ");
                text.append(detail);
                text.append(" fetching ");
                text.append(subject);
            },
            BundleError::Sha256Mismatch => {
                text.append("SHA256 mismatch for ");
                text.append(subject);
            },
        }
        assert(text@ =~= bundle_error_text(*self, subject@, detail@));
        text
    }
}

/// Whether a package is locked for `platform`.
pub open spec fn is_for(platform: Seq<char>) -> spec_fn(PackageView) -> bool {
    |package: PackageView| package.subdir == platform
}

/// The packages that are locked for `platform`, in the order in which they are listed.
pub fn packages_for_platform(packages: Vec<LockedPackage>, platform: &str) -> (selected: Vec<
    LockedPackage,
>)
    ensures
        lock_file::package_views(selected@) == lock_file::package_views(packages@).filter(is_for(platform@)),
        selected@ == packages@.filter(|package: LockedPackage| package.subdir@ == platform@),
        forall|i: int| 0 <= i < selected@.len() ==> (#[trigger] selected@[i]).subdir@ == platform@,
        forall|package: LockedPackage|
            package.subdir@ == platform@ ==> #[trigger] selected@.to_multiset().count(package)
                == packages@.to_multiset().count(package),
{
    let ghost listed = lock_file::package_views(packages@);
    let ghost pick = |package: LockedPackage| package.subdir@ == platform@;
    let mut rest: Vec<LockedPackage> = packages;
    let mut selected: Vec<LockedPackage> = Vec::new();
    let ghost mut done: int = 0;
    proof {
        reveal(Seq::filter);
        assert(listed.take(0).filter(is_for(platform@)) =~= Seq::empty());
        assert(packages@.take(0).filter(pick) =~= Seq::empty());
        assert(packages@.skip(0) =~= packages@);
    }
    while rest.len() > 0
        invariant
            0 <= done <= listed.len(),
            listed.len() == packages@.len(),
            pick == (|package: LockedPackage| package.subdir@ == platform@),
            rest@ =~= packages@.skip(done),
            selected@ =~= packages@.take(done).filter(pick),
            forall|i: int|
                0 <= i < selected@.len() ==> (#[trigger] selected@[i]).subdir@ == platform@,
            lock_file::package_views(rest@) =~= listed.skip(done),
            lock_file::package_views(selected@) =~= listed.take(done).filter(is_for(platform@)),
        decreases rest.len(),
    {
        let ghost before = rest@;
        let ghost chosen = selected@;
        let package: LockedPackage = rest.remove(0);
        proof {
            let views = lock_file::package_views(before);
            assert(views.len() == before.len() && views[0] == package@);
            assert(views[0] == listed.skip(done)[0]);
            assert(package@ == listed[done]);
            assert(listed.take(done + 1).drop_last() =~= listed.take(done));
            assert(package == packages@[done]);
            assert(packages@.take(done + 1).drop_last() =~= packages@.take(done));
            assert(lock_file::package_views(rest@) =~= views.skip(1));
            reveal(Seq::filter);
        }
        if same_text(package.subdir.as_str(), platform) {
            selected.push(package);
            assert(lock_file::package_views(selected@) =~= lock_file::package_views(chosen).push(
                package@,
            ));
        }
        proof {
            done = done + 1;
        }
    }
    assert(lock_file::package_views(rest@).len() == 0);
    assert(listed.take(done) =~= listed);
    assert(packages@.take(done) =~= packages@);
    proof {
        lemma_filter_holds(packages@, pick);
        assert forall|package: LockedPackage|
            package.subdir@ == platform@ implies #[trigger] selected@.to_multiset().count(package)
            == packages@.to_multiset().count(package) by {
            broadcast use vstd::multiset::group_multiset_axioms;

            assert(pick(package));
        }
    }
    selected
}

/// Picking from a list picks the same from what the list holds.
proof fn lemma_filter_holds<A>(list: Seq<A>, pick: spec_fn(A) -> bool)
    ensures
        list.filter(pick).to_multiset() == list.to_multiset().filter(pick),
    decreases list.len(),
{
    broadcast use vstd::seq_lib::group_to_multiset_ensures;
    broadcast use vstd::multiset::group_multiset_axioms;

    reveal(Seq::filter);
    if list.len() == 0 {
        assert(list.to_multiset().len() == 0);
        assert(list.to_multiset() =~= Multiset::empty());
        assert(list.filter(pick).to_multiset() =~= list.to_multiset().filter(pick));
    } else {
        let rest = list.drop_last();
        lemma_filter_holds(rest, pick);
        assert(list =~= rest.push(list.last()));
        assert(list.filter(pick).to_multiset() =~= list.to_multiset().filter(pick));
    }
}

/// The packages that a lock lists for `platform` in its default environment.
pub open spec fn locked_for(lock: LockFile, platform: Seq<char>) -> Multiset<PackageView> {
    lock_file::default_packages(lock).filter(is_for(platform))
}

/// The packages that `lock` lists for `platform` in its default environment.
pub fn select_packages(lock: &LockFile, platform: &str) -> (result: Result<
    Vec<LockedPackage>,
    BundleError,
>)
    ensures
        if !lock_file::has_default_environment(*lock) {
            result is Err && result->Err_0 == BundleError::NoDefaultEnvironment
        } else if locked_for(*lock, platform@).len() == 0 {
            result is Err && result->Err_0 == BundleError::NoPackages
        } else {
            result is Ok && lock_file::package_views(result->Ok_0@).to_multiset() == locked_for(
                *lock,
                platform@,
            )
        },
        match result {
            Err(error) => {
                ||| error == BundleError::NoDefaultEnvironment
                    && !lock_file::has_default_environment(*lock)
                ||| error == BundleError::NoPackages && lock_file::has_default_environment(*lock)
                    && (forall|package: PackageView|
                    package.subdir == platform@ ==> #[trigger] lock_file::default_packages(
                        *lock,
                    ).count(package) == 0)
            },
            Ok(selected) => {
                &&& lock_file::has_default_environment(*lock)
                &&& selected@.len() > 0
                &&& forall|i: int|
                    0 <= i < selected@.len() ==> (#[trigger] selected@[i]).subdir@ == platform@
                &&& forall|package: PackageView|
                    package.subdir == platform@ ==> #[trigger] lock_file::default_packages(
                        *lock,
                    ).count(package) == lock_file::package_views(selected@).to_multiset().count(
                        package,
                    )
            },
        },
{
    let packages: Vec<LockedPackage> = match default_environment_packages(lock) {
        Some(packages) => packages,
        None => {
            return Err(BundleError::NoDefaultEnvironment);
        },
    };
    let ghost listed = lock_file::package_views(packages@);
    let selected: Vec<LockedPackage> = packages_for_platform(packages, platform);
    proof {
        lemma_filter_holds(listed, is_for(platform@));
        lock_file::package_views(selected@).to_multiset_ensures();
        assert forall|package: PackageView|
            package.subdir == platform@ implies #[trigger] lock_file::default_packages(*lock).count(
            package,
        ) == lock_file::package_views(selected@).to_multiset().count(package) by {
            law_selection_goes_by_subdirectory(*lock, platform@, package);
        }
    }
    if selected.len() == 0 {
        return Err(BundleError::NoPackages);
    }
    Ok(selected)
}

/// A package that is locked for a platform is selected for it, as often as it is listed, and
/// no other package is.
pub proof fn law_selection_goes_by_subdirectory(
    lock: LockFile,
    platform: Seq<char>,
    package: PackageView,
)
    ensures
        package.subdir == platform ==> locked_for(lock, platform).count(package)
            == lock_file::default_packages(lock).count(package),
        package.subdir != platform ==> locked_for(lock, platform).count(package) == 0,
{
    broadcast use vstd::multiset::group_multiset_axioms;

    assert(is_for(platform)(package) == (package.subdir == platform));
}

/// No package is selected for two platforms.
pub proof fn law_platforms_share_no_package(
    lock: LockFile,
    left: Seq<char>,
    right: Seq<char>,
    package: PackageView,
)
    requires
        left != right,
    ensures
        locked_for(lock, left).count(package) == 0 || locked_for(lock, right).count(package) == 0,
{
    law_selection_goes_by_subdirectory(lock, left, package);
    law_selection_goes_by_subdirectory(lock, right, package);
}

/// How a package is fetched.
pub struct FetchPlan {
    /// The name of the archive in the directory of the bundle.
    pub archive_name: String,
    /// The name under which it is downloaded.
    pub temporary_name: String,
    /// What it has to hash to.
    pub expected: [u8; 32],
}

/// The name of a package's archive: the last segment of the path of its URL.
pub open spec fn archive_name(package: PackageView) -> Option<Seq<char>> {
    match package.path_segments {
        Some(segments) => if segments.len() > 0 {
            Some(segments.last())
        } else {
            None
        },
        None => None,
    }
}

/// The name of a package's archive, where its URL has one.
pub fn package_archive_name(package: &LockedPackage) -> (name: Option<&str>)
    ensures
        match archive_name(package@) {
            Some(expected) => name is Some && name->0@ == expected,
            None => name is None,
        },
        match package.path_segments {
            Some(segments) => if segments@.len() > 0 {
                name is Some && name->0@ == segments@[segments@.len() - 1]@
            } else {
                name is None
            },
            None => name is None,
        },
{
    match &package.path_segments {
        Some(segments) => {
            let count: usize = segments.len();
            if count == 0 {
                return None;
            }
            Some(segments[count - 1].as_str())
        },
        None => None,
    }
}

/// Whatever comes before it, the last segment of a URL's path is the name of the archive; a URL
/// without a segment names none.
pub proof fn law_archive_is_named_by_the_last_segment(
    package: PackageView,
    before: Seq<Seq<char>>,
    last: Seq<char>,
)
    ensures
        package.path_segments == Some(before.push(last)) ==> archive_name(package) == Some(last),
        archive_name(package) is None <==> (package.path_segments is None
            || package.path_segments->0.len() == 0),
{
    assert(before.push(last).last() == last);
}

/// The name under which an archive is downloaded.
pub open spec fn temporary_name(archive_name: Seq<char>) -> Seq<char> {
    "."@ + archive_name + ".download"@
}

/// Why a package cannot be fetched, where `is_valid_name` says whether an archive may have its
/// name.
pub open spec fn package_error(package: PackageView, is_valid_name: bool) -> Option<BundleError> {
    if !package.is_url {
        Some(BundleError::NotUrl)
    } else if archive_name(package) is None {
        Some(BundleError::NoArchiveName)
    } else if !is_valid_name {
        Some(BundleError::InvalidArchiveName)
    } else if !package.has_record {
        Some(BundleError::MissingRecord)
    } else if package.sha256 is None {
        Some(BundleError::MissingSha256)
    } else {
        None
    }
}

/// How a package is fetched, or why it cannot be, where `is_valid_name` says whether an archive
/// may have its name.
pub fn plan_fetch(package: LockedPackage, is_valid_name: bool) -> (result: Result<
    FetchPlan,
    BundleError,
>)
    ensures
        match package_error(package@, is_valid_name) {
            Some(error) => result is Err && result->Err_0 == error,
            None => {
                &&& result is Ok
                &&& result->Ok_0.archive_name@ == archive_name(package@)->0
                &&& result->Ok_0.temporary_name@ == temporary_name(archive_name(package@)->0)
                &&& result->Ok_0.expected@ == package@.sha256->0
            },
        },
        match result {
            Ok(plan) => {
                &&& package.is_url
                &&& is_valid_name
                &&& package.has_record
                &&& package.path_segments is Some
                &&& package.path_segments->0@.len() > 0
                &&& plan.archive_name@ == package.path_segments->0@[package.path_segments->0@.len()
                    - 1]@
                &&& plan.temporary_name@ == "."@ + package.path_segments->0@[
                package.path_segments->0@.len() - 1]@ + ".download"@
                &&& package.sha256 is Some
                &&& plan.expected@ == package.sha256->0@
            },
            Err(BundleError::NotUrl) => !package.is_url,
            Err(BundleError::NoArchiveName) => package.is_url && (package.path_segments is None
                || package.path_segments->0@.len() == 0),
            Err(BundleError::InvalidArchiveName) => package.is_url && package.path_segments is Some
                && package.path_segments->0@.len() > 0 && !is_valid_name,
            Err(BundleError::MissingRecord) => package.is_url && package.path_segments is Some
                && package.path_segments->0@.len() > 0 && is_valid_name && !package.has_record,
            Err(BundleError::MissingSha256) => package.is_url && package.path_segments is Some
                && package.path_segments->0@.len() > 0 && is_valid_name && package.has_record
                && package.sha256 is None,
            Err(_) => false,
        },
{
    if !package.is_url {
        return Err(BundleError::NotUrl);
    }
    let archive_name: String = match package_archive_name(&package) {
        Some(name) => name.to_owned(),
        None => {
            return Err(BundleError::NoArchiveName);
        },
    };
    if !is_valid_name {
        return Err(BundleError::InvalidArchiveName);
    }
    if !package.has_record {
        return Err(BundleError::MissingRecord);
    }
    let expected: [u8; 32] = match package.sha256 {
        Some(expected) => expected,
        None => {
            return Err(BundleError::MissingSha256);
        },
    };
    let mut temporary_name: String = ".".to_owned();
    temporary_name.append(archive_name.as_str());
    temporary_name.append(".download");
    Ok(FetchPlan { archive_name, temporary_name, expected })
}

/// What to do about an archive that may be there already.
#[derive(Clone, Copy, Debug, PartialEq, Eq)]
pub enum ExistingArchive {
    /// Nothing is there: download it.
    Download,
    /// It is the locked one: keep it.
    Keep,
    /// It is another one: remove it and download the locked one.
    Replace,
}

/// Whether `contents` hash to `expected`.
pub open spec fn is_expected(contents: Seq<u8>, expected: Seq<u8>) -> bool {
    digest::sha256_digest(contents)@ == expected
}

/// What to do about the archive of this plan, of which `existing` is there.
pub fn decide_existing(plan: &FetchPlan, existing: Option<&[u8]>) -> (action: ExistingArchive)
    ensures
        action == (match existing {
            None => ExistingArchive::Download,
            Some(contents) => if is_expected(contents@, plan.expected@) {
                ExistingArchive::Keep
            } else {
                ExistingArchive::Replace
            },
        }),
        action is Download <==> existing is None,
        action is Keep <==> existing is Some && digest::sha256_digest(existing->0@)@
            == plan.expected@,
        action is Replace <==> existing is Some && digest::sha256_digest(existing->0@)@
            != plan.expected@,
{
    match existing {
        None => ExistingArchive::Download,
        Some(contents) => {
            if same_bytes(&sha256(contents), &plan.expected) {
                ExistingArchive::Keep
            } else {
                ExistingArchive::Replace
            }
        },
    }
}

/// Refuses a response that does not carry the archive.
pub fn check_status(status: u16) -> (result: Result<(), BundleError>)
    ensures
        result == (if 200 <= status < 300 {
            Ok(())
        } else {
            Err(BundleError::HttpStatus(status))
        }),
{
    if status < 200 || status >= 300 {
        return Err(BundleError::HttpStatus(status));
    }
    Ok(())
}

/// Refuses a downloaded archive that is not the locked one.
pub fn check_download(plan: &FetchPlan, contents: &[u8]) -> (result: Result<(), BundleError>)
    ensures
        result == (if is_expected(contents@, plan.expected@) {
            Ok(())
        } else {
            Err(BundleError::Sha256Mismatch)
        }),
        result is Ok <==> digest::sha256_digest(contents@)@ == plan.expected@,
{
    if !same_bytes(&sha256(contents), &plan.expected) {
        return Err(BundleError::Sha256Mismatch);
    }
    Ok(())
}

/// What lies where the directory of a bundle is to be made.
#[derive(Clone, Copy, Debug, PartialEq, Eq)]
pub enum StalePath {
    Missing,
    Symlink,
    File,
    Other,
}

/// How to make room for the directory of a bundle.
#[derive(Clone, Copy, Debug, PartialEq, Eq)]
pub enum StaleAction {
    Nothing,
    RemoveFile,
    RemoveTree,
}

/// How to make room for the directory of a bundle: what is reached through a symbolic link is
/// left alone.
pub fn clear_stale_path(stale: StalePath) -> (action: StaleAction)
    ensures
        action == (match stale {
            StalePath::Missing => StaleAction::Nothing,
            StalePath::Symlink => StaleAction::RemoveFile,
            StalePath::File => StaleAction::RemoveFile,
            StalePath::Other => StaleAction::RemoveTree,
        }),
{
    match stale {
        StalePath::Missing => StaleAction::Nothing,
        StalePath::Symlink => StaleAction::RemoveFile,
        StalePath::File => StaleAction::RemoveFile,
        StalePath::Other => StaleAction::RemoveTree,
    }
}

} // verus!
