use vstd::prelude::*;

verus! {

/// The single error kind that every engine operation may return.
#[derive(Clone, Copy, Debug, PartialEq, Eq, Structural)]
pub enum EngineError {
    NotAuthenticated,
    InvalidCredentials,
    UserInactive,
    PermissionDenied,
    ResourceNotFound,
    UserAlreadyExists,
    StreamAlreadyExists,
    TopicAlreadyExists,
    CannotDeleteUser(u32),
    CannotChangePermissions(u32),
    UsersLimitReached,
    InvalidIdentifier,
    InvalidMessagesCount,
    InvalidUsername,
    InvalidPassword,
    TooManyPartitions,
    NoPartitions(u32, u32),
    CannotEncryptData,
    CannotDecryptData,
    InternalError,
}

} // verus!
