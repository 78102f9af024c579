//! The error taxonomy of the vault's REST surface, and the names and status
//! codes each error is reported with.
use vstd::prelude::*;

verus! {

/// A plain success body.
pub struct Success {
    pub message: &'static str,
}

pub trait AsOrigin {
    /// The resource kind a not-found error should point at.
    fn as_origin(&self) -> Origin;
}

/// What kind of resource an error talks about.
#[derive(Clone, Copy, Debug, PartialEq, Eq, Structural)]
pub enum Origin {
    File,
    Files,
    LocalFile,
    Namespace,
    Tag,
    Group,
    Record,
    User,
}

impl AsOrigin for Origin {
    fn as_origin(&self) -> (r: Origin)
        ensures
            r == *self,
    {
        *self
    }
}

/// Possible rest error types.
#[derive(Clone, Copy, Debug, PartialEq, Eq, Structural)]
pub enum RestError {
    DNotFound(Origin),
    NotFound,
    NotPublic,
    Forbidden,
    AlreadyExists,
    AlreadyPublic,
    BadRequest,
    Unauthorized,
    UserDisabled,
    MultipleFilesMatch,
    IllegalOperation,
    NotAllowed,
    Internal,
    UnknownIo,
    PartialContent,
}

impl RestError {
    /// The short name the error is reported under.
    pub open spec fn spec_name(self) -> Seq<char> {
        match self {
            RestError::NotFound | RestError::DNotFound(_) => "NotFound"@,
            RestError::Forbidden => "Forbidden"@,
            RestError::UnknownIo => "Unknown IO"@,
            RestError::Internal => "Unknown"@,
            RestError::Unauthorized => "Unauthorized"@,
            RestError::AlreadyExists => "AlreadyExists"@,
            RestError::IllegalOperation => "IllegalOperation"@,
            RestError::MultipleFilesMatch => "MultipleFilesMatch"@,
            RestError::NotAllowed => "NotAllowed"@,
            RestError::NotPublic => "NotPublic"@,
            RestError::PartialContent => "PartialContent"@,
            _ => "BadRequest"@,
        }
    }

    /// The short name the error is reported under.
    pub fn name(&self) -> (r: String)
        ensures
            r@ == self.spec_name(),
    {
        match self {
            Self::NotFound | Self::DNotFound(_) => "NotFound".to_owned(),
            Self::Forbidden => "Forbidden".to_owned(),
            Self::UnknownIo => "Unknown IO".to_owned(),
            Self::Internal => "Unknown".to_owned(),
            Self::Unauthorized => "Unauthorized".to_owned(),
            Self::AlreadyExists => "AlreadyExists".to_owned(),
            Self::IllegalOperation => "IllegalOperation".to_owned(),
            Self::MultipleFilesMatch => "MultipleFilesMatch".to_owned(),
            Self::NotAllowed => "NotAllowed".to_owned(),
            Self::NotPublic => "NotPublic".to_owned(),
            Self::PartialContent => "PartialContent".to_owned(),
            _ => "BadRequest".to_owned(),
        }
    }

    /// The HTTP status code the error is answered with.
    pub open spec fn spec_status_code(self) -> u16 {
        match self {
            RestError::NotFound | RestError::DNotFound(_) => 404,
            RestError::Unauthorized => 401,
            RestError::BadRequest => 400,
            RestError::Forbidden => 403,
            RestError::AlreadyExists => 422,
            RestError::IllegalOperation => 422,
            RestError::MultipleFilesMatch => 422,
            RestError::NotAllowed => 405,
            RestError::AlreadyPublic => 409,
            RestError::NotPublic => 409,
            RestError::PartialContent => 206,
            _ => 500,
        }
    }

    /// The HTTP status code the error is answered with.
    pub fn status_code(&self) -> (r: u16)
        ensures
            r == self.spec_status_code(),
    {
        match self {
            Self::NotFound | Self::DNotFound(_) => 404,
            Self::Unauthorized => 401,
            Self::BadRequest => 400,
            Self::Forbidden => 403,
            Self::AlreadyExists => 422,
            Self::IllegalOperation => 422,
            Self::MultipleFilesMatch => 422,
            Self::NotAllowed => 405,
            Self::AlreadyPublic => 409,
            Self::NotPublic => 409,
            Self::PartialContent => 206,
            _ => 500,
        }
    }
}

} // verus!
