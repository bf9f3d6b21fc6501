//! The kinds of failure that the store, the runtime and the registry report.

use vstd::prelude::*;

verus! {

/// Why an operation failed.
#[derive(Clone, Copy, PartialEq, Eq, Debug, Hash, Structural)]
pub enum Error {
    /// No row, module, release or keyring entry answers the query.
    NotFound,
    /// The value is already present.
    AlreadyExists,
    /// The module name belongs to another author.
    NameTaken,
    /// The module already has a release with this version.
    VersionExists,
    /// The request carries no session that the registry knows.
    AuthRequired,
    /// The module did not declare access to the keyring namespace.
    KeyringDenied,
    /// The filter is not an expression of the filter language.
    FilterSyntax,
    /// The metadata block holds a key that is not recognised.
    MetadataUnknownKey,
    /// The metadata block holds no well-formed version.
    MetadataVersion,
    /// Another runtime has the workspace open.
    WorkspaceLocked,
    /// A network call did not finish in time.
    Timeout,
    /// A network call failed.
    NetworkError,
    /// The storage engine refused the operation.
    StorageError,
    /// The script, or a host function on its behalf, failed.
    ScriptError,
    /// A failure of the service itself; reported without detail.
    Internal,
    /// The name of a user does not meet the identifier policy.
    InvalidUserName,
    /// The name of a module does not meet the identifier policy.
    InvalidModuleName,
    /// The request has none of the forms that the endpoint takes.
    InvalidRequest,
}

impl Error {
    /// Whether the detail of this failure is kept from the client.
    pub open spec fn is_opaque(self) -> bool {
        self == Error::Internal
    }

    /// The text that a client is shown for this failure.
    pub open spec fn text(self) -> Seq<char> {
        match self {
            Error::NotFound => "not found"@,
            Error::AlreadyExists => "already exists"@,
            Error::NameTaken => "name is taken by another author"@,
            Error::VersionExists => "version already exists"@,
            Error::AuthRequired => "authentication required"@,
            Error::KeyringDenied => "keyring access denied"@,
            Error::FilterSyntax => "filter syntax error"@,
            Error::MetadataUnknownKey => "unknown metadata key"@,
            Error::MetadataVersion => "metadata version is invalid"@,
            Error::WorkspaceLocked => "workspace is locked"@,
            Error::Timeout => "timeout"@,
            Error::NetworkError => "network error"@,
            Error::StorageError => "storage error"@,
            Error::ScriptError => "script error"@,
            Error::Internal => "internal error"@,
            Error::InvalidUserName => "Username is invalid"@,
            Error::InvalidModuleName => "Module name is invalid"@,
            Error::InvalidRequest => "Invalid request"@,
        }
    }

    /// The text that a client is shown for this failure.
    pub fn message(&self) -> (r: String)
        ensures
            r@ == self.text(),
    {
        match self {
            Error::NotFound => "not found".to_owned(),
            Error::AlreadyExists => "already exists".to_owned(),
            Error::NameTaken => "name is taken by another author".to_owned(),
            Error::VersionExists => "version already exists".to_owned(),
            Error::AuthRequired => "authentication required".to_owned(),
            Error::KeyringDenied => "keyring access denied".to_owned(),
            Error::FilterSyntax => "filter syntax error".to_owned(),
            Error::MetadataUnknownKey => "unknown metadata key".to_owned(),
            Error::MetadataVersion => "metadata version is invalid".to_owned(),
            Error::WorkspaceLocked => "workspace is locked".to_owned(),
            Error::Timeout => "timeout".to_owned(),
            Error::NetworkError => "network error".to_owned(),
            Error::StorageError => "storage error".to_owned(),
            Error::ScriptError => "script error".to_owned(),
            Error::Internal => "internal error".to_owned(),
            Error::InvalidUserName => "Username is invalid".to_owned(),
            Error::InvalidModuleName => "Module name is invalid".to_owned(),
            Error::InvalidRequest => "Invalid request".to_owned(),
        }
    }

    /// Whether the detail of this failure is kept from the client.
    pub fn opaque(&self) -> (r: bool)
        ensures
            r == self.is_opaque(),
    {
        matches!(self, Error::Internal)
    }
}

/// A failure as a client is told of it: its kind, and the text that the
/// client is shown.
#[derive(Clone, PartialEq, Eq, Debug)]
pub struct Failure {
    pub kind: Error,
    pub text: String,
}

/// The mathematical value of a [`Failure`].
pub struct FailureView {
    pub kind: Error,
    pub text: Seq<char>,
}

impl View for Failure {
    type V = FailureView;

    open spec fn view(&self) -> FailureView {
        FailureView { kind: self.kind, text: self.text@ }
    }
}

/// The failure of a kind that has nothing to tell but the text of the kind.
pub open spec fn plain(kind: Error) -> FailureView {
    FailureView { kind, text: kind.text() }
}

impl Failure {
    /// The failure of a kind that has nothing to tell but the text of the
    /// kind.
    pub fn of(kind: Error) -> (r: Failure)
        ensures
            r@ == plain(kind),
    {
        Failure { kind, text: kind.message() }
    }
}

} // verus!
