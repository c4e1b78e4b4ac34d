//! Error kinds of the naming registry, and the numeric codes under which
//! they cross an FFI boundary.

use vstd::prelude::*;

verus! {

/// Base of the numeric range reserved for errors of the file-storage
/// collaborator.
pub const NFS_ERROR_START_RANGE: i32 = -1500;

/// Base of the numeric range reserved for errors of this crate, for
/// propagating some error information across FFI boundaries.
pub const DNS_ERROR_START_RANGE: i32 = NFS_ERROR_START_RANGE - 500;

/// An error of the network collaborator, carried through unchanged.  The
/// registry never inspects it beyond its numeric code.
#[derive(Debug, PartialEq, Eq)]
pub struct CoreError {
    /// Numeric code assigned by the collaborator.
    pub error_code: i32,
}

/// An error of the file-storage collaborator.  The registry reads only
/// whether it reports that a file already exists.
#[derive(Debug, PartialEq, Eq)]
pub enum NfsError {
    /// The file or directory to create is already present.
    AlreadyExists,
    /// Any other failure, carried through by its numeric code.
    Other(i32),
}

/// Errors of the naming registry.
#[derive(Debug, PartialEq, Eq)]
pub enum DnsError {
    /// Failure of the network collaborator, carried through.
    CoreError(CoreError),
    /// Failure of the file-storage collaborator, carried through.
    NfsError(NfsError),
    /// The long name is already present in the local configuration.
    DnsNameAlreadyRegistered,
    /// The long name is not present in the local configuration.
    DnsRecordNotFound,
    /// The service is already present under the long name.
    ServiceAlreadyExists,
    /// The service is not present under the long name.
    ServiceNotFound,
    /// The configuration file is missing or does not decode.
    DnsConfigFileNotFoundOrCorrupted,
    /// A fetched record is of a different kind than a registry record.
    UnexpectedRecordType,
    /// A locator string does not follow the locator grammar.
    MalformedLocator,
    /// Unexpected, probably due to a logical error.
    Unexpected(String),
}

impl CoreError {
    /// The numeric code of the error.
    pub fn error_code(&self) -> (code: i32)
        ensures
            code == self.error_code,
    {
        self.error_code
    }
}

impl NfsError {
    /// The numeric code under which the error crosses an FFI boundary.
    pub fn error_code(&self) -> (code: i32)
        ensures
            code == self.spec_error_code(),
    {
        match self {
            NfsError::AlreadyExists => NFS_ERROR_START_RANGE - 1,
            NfsError::Other(c) => *c,
        }
    }

    /// The numeric code of the error.
    pub open spec fn spec_error_code(&self) -> i32 {
        match self {
            NfsError::AlreadyExists => (NFS_ERROR_START_RANGE - 1) as i32,
            NfsError::Other(c) => *c,
        }
    }
}

impl DnsError {
    /// The numeric code under which the error crosses an FFI boundary.
    pub fn error_code(&self) -> (code: i32)
        ensures
            code == self.spec_error_code(),
    {
        match self {
            DnsError::CoreError(error) => error.error_code,
            DnsError::NfsError(error) => error.error_code(),
            DnsError::DnsNameAlreadyRegistered => DNS_ERROR_START_RANGE,
            DnsError::DnsRecordNotFound => DNS_ERROR_START_RANGE - 1,
            DnsError::ServiceAlreadyExists => DNS_ERROR_START_RANGE - 2,
            DnsError::ServiceNotFound => DNS_ERROR_START_RANGE - 3,
            DnsError::DnsConfigFileNotFoundOrCorrupted => DNS_ERROR_START_RANGE - 4,
            DnsError::Unexpected(_) => DNS_ERROR_START_RANGE - 5,
            DnsError::UnexpectedRecordType => DNS_ERROR_START_RANGE - 6,
            DnsError::MalformedLocator => DNS_ERROR_START_RANGE - 7,
        }
    }

    /// The numeric code of the error.
    pub open spec fn spec_error_code(&self) -> i32 {
        match self {
            DnsError::CoreError(error) => error.error_code,
            DnsError::NfsError(error) => error.spec_error_code(),
            DnsError::DnsNameAlreadyRegistered => DNS_ERROR_START_RANGE as i32,
            DnsError::DnsRecordNotFound => (DNS_ERROR_START_RANGE - 1) as i32,
            DnsError::ServiceAlreadyExists => (DNS_ERROR_START_RANGE - 2) as i32,
            DnsError::ServiceNotFound => (DNS_ERROR_START_RANGE - 3) as i32,
            DnsError::DnsConfigFileNotFoundOrCorrupted => (DNS_ERROR_START_RANGE - 4) as i32,
            DnsError::Unexpected(_) => (DNS_ERROR_START_RANGE - 5) as i32,
            DnsError::UnexpectedRecordType => (DNS_ERROR_START_RANGE - 6) as i32,
            DnsError::MalformedLocator => (DNS_ERROR_START_RANGE - 7) as i32,
        }
    }
}

impl From<CoreError> for DnsError {
    /// Wraps a network-collaborator failure.
    fn from(error: CoreError) -> (r: DnsError)
        ensures
            r == DnsError::CoreError(error),
    {
        DnsError::CoreError(error)
    }
}

impl vstd::std_specs::convert::FromSpecImpl<CoreError> for DnsError {
    open spec fn obeys_from_spec() -> bool {
        true
    }

    open spec fn from_spec(error: CoreError) -> DnsError {
        DnsError::CoreError(error)
    }
}

impl From<NfsError> for DnsError {
    /// Wraps a file-storage-collaborator failure.
    fn from(error: NfsError) -> (r: DnsError)
        ensures
            r == DnsError::NfsError(error),
    {
        DnsError::NfsError(error)
    }
}

impl vstd::std_specs::convert::FromSpecImpl<NfsError> for DnsError {
    open spec fn obeys_from_spec() -> bool {
        true
    }

    open spec fn from_spec(error: NfsError) -> DnsError {
        DnsError::NfsError(error)
    }
}

} // verus!
