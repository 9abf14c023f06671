//! The error taxonomy of the manager. Fatal conditions (`UnsafeRemoval`,
//! `RegistryError`) abort the running operation; the others are reported per
//! package. Each variant carries the context a caller needs to diagnose the
//! failure: the package name, the remote identity, or the offending path.

use vstd::prelude::*;

verus! {

use vstd::string::StringExecFns;

#[derive(Debug, Clone, PartialEq, Eq)]
pub enum MyError {
    /// A network request could not be made or did not complete.
    NetworkError(String),
    /// The remote endpoint answered with a bad status or a malformed payload.
    RemoteApiError(String),
    /// The selector kept no asset for this host.
    NoAvailableAsset,
    /// A package name or URL could not be understood, or a record was asked
    /// for remote identity it does not hold.
    InvalidIdentifier(String),
    /// The registry could not be opened or a transaction failed. Fatal.
    RegistryError(String),
    /// A tracked path escapes the install root. Fatal.
    UnsafeRemoval(String),
    /// A filesystem mutation failed.
    IoError(String),
    /// The attempted action is not implemented for this host.
    PlatformUnsupported(String),
    /// No record with the given name exists in the registry.
    NotFound(String),
}

/// The fixed description of each error variant.
pub open spec fn spec_error_prefix(e: MyError) -> Seq<char> {
    match e {
        MyError::NetworkError(_) => "network error: "@,
        MyError::RemoteApiError(_) => "remote api error: "@,
        MyError::NoAvailableAsset => "no available asset found in this repo"@,
        MyError::InvalidIdentifier(_) => "invalid identifier: "@,
        MyError::RegistryError(_) => "registry error: "@,
        MyError::UnsafeRemoval(_) => "unsafe removal, path escapes the install root: "@,
        MyError::IoError(_) => "io error: "@,
        MyError::PlatformUnsupported(_) => "unsupported on this platform: "@,
        MyError::NotFound(_) => "no such package: "@,
    }
}

/// The context string an error carries, empty where it carries none.
pub open spec fn spec_error_context(e: MyError) -> Seq<char> {
    match e {
        MyError::NetworkError(s) => s@,
        MyError::RemoteApiError(s) => s@,
        MyError::NoAvailableAsset => Seq::<char>::empty(),
        MyError::InvalidIdentifier(s) => s@,
        MyError::RegistryError(s) => s@,
        MyError::UnsafeRemoval(s) => s@,
        MyError::IoError(s) => s@,
        MyError::PlatformUnsupported(s) => s@,
        MyError::NotFound(s) => s@,
    }
}

impl MyError {
    /// Whether the error aborts the whole running operation rather than being
    /// reported alongside other packages' results.
    pub open spec fn spec_is_fatal(&self) -> bool {
        self is UnsafeRemoval || self is RegistryError
    }

    /// Fatal errors abort the current operation; the rest are per-package.
    pub fn is_fatal(&self) -> (r: bool)
        ensures
            r == self.spec_is_fatal(),
    {
        match self {
            MyError::UnsafeRemoval(_) => true,
            MyError::RegistryError(_) => true,
            _ => false,
        }
    }

    /// A single readable message: the variant's description followed by the
    /// context it carries.
    pub fn message(&self) -> (r: String)
        ensures
            r@ == spec_error_prefix(*self) + spec_error_context(*self),
    {
        let (prefix, context): (&str, &str) = match self {
            MyError::NetworkError(s) => ("network error: ", s.as_str()),
            MyError::RemoteApiError(s) => ("remote api error: ", s.as_str()),
            MyError::NoAvailableAsset => ("no available asset found in this repo", ""),
            MyError::InvalidIdentifier(s) => ("invalid identifier: ", s.as_str()),
            MyError::RegistryError(s) => ("registry error: ", s.as_str()),
            MyError::UnsafeRemoval(s) => ("unsafe removal, path escapes the install root: ", s.as_str()),
            MyError::IoError(s) => ("io error: ", s.as_str()),
            MyError::PlatformUnsupported(s) => ("unsupported on this platform: ", s.as_str()),
            MyError::NotFound(s) => ("no such package: ", s.as_str()),
        };
        let mut out = prefix.to_owned();
        out.append(context);
        proof {
            if *self is NoAvailableAsset {
                reveal_strlit("");
                assert(spec_error_context(*self) =~= ""@);
            }
        }
        out
    }
}

} // verus!
