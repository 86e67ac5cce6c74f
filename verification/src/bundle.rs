//! The bundle that a stamped executable embeds.

use vstd::prelude::*;
use vstd::slice::slice_subrange;

use crate::bytes::same_bytes;
use crate::digest;
use crate::digest::sha256;
use crate::error::{invalid_data, RuntimeDataError};

verus! {

/// Where the bundle of an executable lies, and what it has to hash to.
#[derive(Clone, Copy, Debug)]
pub struct EmbeddedBundle {
    pub offset: u64,
    pub len: u64,
    pub sha256: [u8; 32],
}

/// The model of an [`EmbeddedBundle`].
#[verifier::ext_equal]
pub struct BundleView {
    pub offset: u64,
    pub len: u64,
    pub sha256: Seq<u8>,
}

impl View for EmbeddedBundle {
    type V = BundleView;

    open spec fn view(&self) -> BundleView {
        BundleView { offset: self.offset, len: self.len, sha256: self.sha256@ }
    }
}

/// Why the bundle cannot be taken from `executable`, where `truncated` is said of one that ends
/// too early.
pub open spec fn bundle_error(
    bundle: BundleView,
    executable: Seq<u8>,
    truncated: &'static str,
) -> Option<RuntimeDataError> {
    if bundle.len != 0 && bundle.offset + bundle.len > executable.len() {
        Some(invalid_data(truncated))
    } else if digest::sha256_digest(bundle_bytes(bundle, executable))@ != bundle.sha256 {
        Some(invalid_data("embedded bundle checksum mismatch"))
    } else {
        None
    }
}

/// The bytes of the bundle in `executable`.
pub open spec fn bundle_bytes(bundle: BundleView, executable: Seq<u8>) -> Seq<u8> {
    if bundle.len == 0 {
        Seq::empty()
    } else {
        executable.subrange(bundle.offset as int, bundle.offset + bundle.len)
    }
}

impl EmbeddedBundle {
    /// How many bytes the bundle has.
    pub fn len(&self) -> (len: u64)
        ensures
            len == self.len,
    {
        self.len
    }

    /// The bytes of the bundle in `executable`, where they are all there and hash to the digest
    /// that the footer promised; `truncated` is said of a bundle that ends too early.
    fn checked_bytes<'a>(&self, executable: &'a [u8], truncated: &'static str) -> (result: Result<
        &'a [u8],
        RuntimeDataError,
    >)
        ensures
            match bundle_error(self@, executable@, truncated) {
                Some(error) => result == Err::<&'a [u8], RuntimeDataError>(error),
                None => result is Ok && result->Ok_0@ == bundle_bytes(self@, executable@),
            },
    {
        let available: u64 = executable.len() as u64;
        let content: &[u8] = if self.len == 0 {
            slice_subrange(executable, 0, 0)
        } else if self.offset > available || self.len > available - self.offset {
            return Err(invalid_data(truncated));
        } else {
            slice_subrange(executable, self.offset as usize, (self.offset + self.len) as usize)
        };
        assert(content@ =~= bundle_bytes(self@, executable@));
        if !same_bytes(&sha256(content), &self.sha256) {
            return Err(invalid_data("embedded bundle checksum mismatch"));
        }
        Ok(content)
    }

    /// A copy of the bundle of `executable`, where it is whole and hashes to the digest that the
    /// footer promised.
    pub fn open_verified(&self, executable: &[u8]) -> (result: Result<Vec<u8>, RuntimeDataError>)
        ensures
            match bundle_error(
                self@,
                executable@,
                "embedded bundle ended before its declared length",
            ) {
                Some(error) => result is Err && result->Err_0 == error,
                None => result is Ok && result->Ok_0@ == bundle_bytes(self@, executable@),
            },
            match result {
                Ok(content) => {
                    &&& content@.len() == self.len
                    &&& self.len > 0 ==> self.offset + self.len <= executable@.len()
                    &&& forall|i: int|
                        0 <= i < self.len ==> #[trigger] content@[i] == executable@[self.offset + i]
                    &&& digest::sha256_digest(content@)@ == self.sha256@
                },
                Err(error) => if self.len > 0 && self.offset + self.len > executable@.len() {
                    error == RuntimeDataError::InvalidData(
                        "embedded bundle ended before its declared length",
                    )
                } else {
                    &&& error == RuntimeDataError::InvalidData("embedded bundle checksum mismatch")
                    &&& digest::sha256_digest(
                        if self.len == 0 {
                            Seq::empty()
                        } else {
                            executable@.subrange(self.offset as int, self.offset + self.len)
                        },
                    )@ != self.sha256@
                },
            },
    {
        let content: &[u8] = self.checked_bytes(
            executable,
            "embedded bundle ended before its declared length",
        )?;
        Ok(vstd::slice::slice_to_vec(content))
    }

    /// Refuses an executable whose bundle is not whole or does not hash to the digest that the
    /// footer promised.
    pub fn verify(&self, executable: &[u8]) -> (result: Result<(), RuntimeDataError>)
        ensures
            result == (match bundle_error(
                self@,
                executable@,
                "file range ended before its declared length",
            ) {
                Some(error) => Err(error),
                None => Ok(()),
            }),
            match result {
                Ok(()) => {
                    &&& self.len > 0 ==> self.offset + self.len <= executable@.len()
                    &&& digest::sha256_digest(
                        if self.len == 0 {
                            Seq::empty()
                        } else {
                            executable@.subrange(self.offset as int, self.offset + self.len)
                        },
                    )@ == self.sha256@
                },
                Err(error) => if self.len > 0 && self.offset + self.len > executable@.len() {
                    error == RuntimeDataError::InvalidData(
                        "file range ended before its declared length",
                    )
                } else {
                    &&& error == RuntimeDataError::InvalidData("embedded bundle checksum mismatch")
                    &&& digest::sha256_digest(
                        if self.len == 0 {
                            Seq::empty()
                        } else {
                            executable@.subrange(self.offset as int, self.offset + self.len)
                        },
                    )@ != self.sha256@
                },
            },
    {
        self.checked_bytes(executable, "file range ended before its declared length")?;
        Ok(())
    }
}

} // verus!
