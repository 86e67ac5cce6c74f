//! The lock by which processes take turns at installing a runtime.

use vstd::prelude::*;
use vstd::string::*;

verus! {

/// Why there is no place for the lock of an install path.
#[derive(Clone, Copy, Debug, PartialEq, Eq)]
pub enum LockPathError {
    /// The install path has no parent directory.
    NoParent,
    /// The install path does not end in a name.
    NoFinalComponent,
}

/// The text of a lock error for the install path that reads `prefix`.
pub open spec fn lock_error_text(error: LockPathError, prefix: Seq<char>) -> Seq<char> {
    match error {
        LockPathError::NoParent => "install path has no parent directory: "@ + prefix,
        LockPathError::NoFinalComponent => "install path has no final component: "@ + prefix,
    }
}

impl LockPathError {
    /// The error as text, for the install path that reads `prefix`.
    pub fn message(&self, prefix: &str) -> (text: String)
        ensures
            text@ == lock_error_text(*self, prefix@),
            text@ == (match *self {
                LockPathError::NoParent => "install path has no parent directory: "@,
                LockPathError::NoFinalComponent => "install path has no final component: "@,
            }) + prefix@,
    {
        let mut text: String = match self {
            LockPathError::NoParent => "install path has no parent directory: ".to_owned(),
            LockPathError::NoFinalComponent => "install path has no final component: ".to_owned(),
        };
        text.append(prefix);
        text
    }
}

/// The name of the lock file of an install path that ends in `name`.
pub open spec fn lock_file_name(name: Seq<char>) -> Seq<char> {
    "."@ + name + ".conda-ship.lock"@
}

/// The name of the lock file of an install path, which lies in the path's parent directory.
pub fn path(has_parent: bool, name: Option<&str>) -> (result: Result<String, LockPathError>)
    ensures
        match name {
            _ if !has_parent => result is Err && result->Err_0 == LockPathError::NoParent,
            None => result is Err && result->Err_0 == LockPathError::NoFinalComponent,
            Some(name) => result is Ok && result->Ok_0@ == lock_file_name(name@),
        },
        result is Ok <==> has_parent && name is Some,
        result matches Ok(file_name) ==> file_name@ == "."@ + name->0@ + ".conda-ship.lock"@,
{
    if !has_parent {
        return Err(LockPathError::NoParent);
    }
    match name {
        None => Err(LockPathError::NoFinalComponent),
        Some(name) => {
            let mut file_name: String = ".".to_owned();
            file_name.append(name);
            file_name.append(".conda-ship.lock");
            Ok(file_name)
        },
    }
}

/// The lock file lies next to the install path and is another file than the path itself.
pub proof fn law_lock_is_not_the_install_path(name: Seq<char>)
    ensures
        lock_file_name(name) != name,
{
    reveal_strlit(".");
    assert(lock_file_name(name).len() > name.len());
}

/// The lock files of two install paths in one directory are two files.
pub proof fn law_locks_of_two_install_paths_differ(left: Seq<char>, right: Seq<char>)
    requires
        left != right,
    ensures
        lock_file_name(left) != lock_file_name(right),
{
    reveal_strlit(".");
    reveal_strlit(".conda-ship.lock");
    if lock_file_name(left) == lock_file_name(right) {
        let suffix = ".conda-ship.lock"@;
        let whole = lock_file_name(left);
        assert(whole.subrange(1, whole.len() - suffix.len()) =~= left);
        assert(whole.subrange(1, whole.len() - suffix.len()) =~= right);
    }
}

} // verus!
