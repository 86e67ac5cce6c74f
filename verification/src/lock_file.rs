//! The packages that a lock file lists.

use rattler_lock::LockFile;
use vstd::multiset::Multiset;
use vstd::prelude::*;

verus! {

/// The lock file of the `rattler_lock` crate.
#[verifier::external_type_specification]
#[verifier::external_body]
pub struct ExLockFile(LockFile);

/// What a lock says of a conda package.
pub struct LockedPackage {
    /// The subdirectory of the platform that the package is locked for.
    pub subdir: String,
    /// Where the package lies.
    pub location: String,
    /// Where the package lies, in the form that tells a URL from a path.
    pub shown_location: String,
    /// Whether the package lies at a URL.
    pub is_url: bool,
    /// The segments of the URL's path, where it has any.
    pub path_segments: Option<Vec<String>>,
    /// Whether the lock has a record of the package.
    pub has_record: bool,
    /// The SHA-256 digest in that record, where there is one.
    pub sha256: Option<[u8; 32]>,
}

/// The model of a [`LockedPackage`].
#[verifier::ext_equal]
pub struct PackageView {
    pub subdir: Seq<char>,
    pub location: Seq<char>,
    pub shown_location: Seq<char>,
    pub is_url: bool,
    pub path_segments: Option<Seq<Seq<char>>>,
    pub has_record: bool,
    pub sha256: Option<Seq<u8>>,
}

impl View for LockedPackage {
    type V = PackageView;

    open spec fn view(&self) -> PackageView {
        PackageView {
            subdir: self.subdir@,
            location: self.location@,
            shown_location: self.shown_location@,
            is_url: self.is_url,
            path_segments: match self.path_segments {
                Some(segments) => Some(texts(segments@)),
                None => None,
            },
            has_record: self.has_record,
            sha256: match self.sha256 {
                Some(digest) => Some(digest@),
                None => None,
            },
        }
    }
}

/// The models of a list of strings.
pub open spec fn texts(list: Seq<String>) -> Seq<Seq<char>> {
    list.map_values(|text: String| text@)
}

/// The models of a list of packages.
pub open spec fn package_views(packages: Seq<LockedPackage>) -> Seq<PackageView> {
    packages.map_values(|package: LockedPackage| package@)
}

/// Whether a lock has a default environment.
pub uninterp spec fn has_default_environment(lock: LockFile) -> bool;

/// The conda packages in the default environment of a lock, for all platforms, in no order.
pub uninterp spec fn default_packages(lock: LockFile) -> Multiset<PackageView>;

/// The conda packages in the default environment of `lock`, for all platforms, or `None` where
/// the lock has no such environment.
///
/// `LockFile::default_environment` finds the environment, and
/// `Environment::conda_packages_by_platform` walks a hash map of its platforms, so nothing is
/// said of the order. Of each package, the subdirectory of its platform is taken, its location,
/// the path segments where that is a URL, and what its record says.
#[verifier::external_body]
pub(crate) fn default_environment_packages(lock: &LockFile) -> (packages: Option<
    Vec<LockedPackage>,
>)
    ensures
        packages is Some <==> has_default_environment(*lock),
        packages matches Some(list) ==> package_views(list@).to_multiset() == default_packages(
            *lock,
        ),
{
    let environment = lock.default_environment()?;
    let packages = environment.conda_packages_by_platform().flat_map(|(platform, packages)| {
        packages.map(move |package| LockedPackage {
            subdir: platform.subdir().as_str().to_owned(),
            location: package.location().as_str().to_owned(),
            shown_location: format!("{:?}", package.location()),
            is_url: package.location().as_url().is_some(),
            path_segments: package.location().as_url().and_then(|url| {
                Some(url.path_segments()?.map(str::to_owned).collect())
            }),
            has_record: package.record().is_some(),
            sha256: package.record().and_then(|record| record.sha256).map(|digest| digest.into()),
        })
    });
    Some(packages.collect())
}

} // verus!
