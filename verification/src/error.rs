//! What can go wrong, and how the user is told.
use vstd::prelude::*;

verus! {

pub type AppResult<T> = Result<T, AppError>;

#[derive(Clone, Debug)]
pub enum AppError {
    /// Something that the user can act on; the text says what.
    User(String),
    /// The user gave up.
    Cancelled,
    /// A process took too long.
    Timeout,
    /// The document is no longer the one that the operation started from.
    StaleDocument,
    /// `ansible-vault` did not accept the password or the payload.
    VaultRejected,
    /// The file system refused; the text is its own.
    Filesystem(String),
    /// A fault of the extension itself; the text is for its developers.
    Internal(String),
}

/// An error as contracts speak of it.
pub enum Failure {
    User(Seq<char>),
    Cancelled,
    Timeout,
    StaleDocument,
    VaultRejected,
    Filesystem(Seq<char>),
    Internal(Seq<char>),
}

impl View for AppError {
    type V = Failure;

    open spec fn view(&self) -> Failure {
        match *self {
            AppError::User(message) => Failure::User(message@),
            AppError::Cancelled => Failure::Cancelled,
            AppError::Timeout => Failure::Timeout,
            AppError::StaleDocument => Failure::StaleDocument,
            AppError::VaultRejected => Failure::VaultRejected,
            AppError::Filesystem(message) => Failure::Filesystem(message@),
            AppError::Internal(message) => Failure::Internal(message@),
        }
    }
}

impl Failure {
    /// The sentence that tells the user.
    pub open spec fn text(self) -> Seq<char> {
        match self {
            Failure::User(message) => message,
            Failure::Cancelled => "Operation cancelled"@,
            Failure::Timeout => "The operation timed out"@,
            Failure::StaleDocument =>
            "The document changed while the operation was running; retry the action"@,
            Failure::VaultRejected => "Ansible Vault rejected the password or encrypted data"@,
            Failure::Filesystem(message) => "A filesystem operation failed: "@ + message,
            Failure::Internal(_) => "An internal extension error occurred"@,
        }
    }
}

impl AppError {
    /// An error with a text for the user.
    pub fn user<M: Into<String>>(message: M) -> (r: AppError)
        ensures
            r matches AppError::User(text) && call_ensures(M::into, (message,), text),
    {
        AppError::User(message.into())
    }

    /// A file system error, with the text that `error` displays.
    pub fn filesystem<E: std::fmt::Display>(error: E) -> (r: AppError)
        ensures
            r matches AppError::Filesystem(text)
                && vstd::string::to_string_from_display_ensures::<E>(&error, text),
    {
        AppError::Filesystem(error.to_string())
    }

    /// An error with the given text for the user.
    pub fn told(message: &str) -> (r: AppError)
        ensures
            r@ == Failure::User(message@),
    {
        AppError::User(message.to_string())
    }

    /// An error whose text for the user is the two parts in a row.
    pub fn told_pair(first: &str, second: &str) -> (r: AppError)
        ensures
            r@ == Failure::User(first@ + second@),
    {
        let mut text = first.to_string();
        text.append(second);
        AppError::User(text)
    }

    /// An error whose text for the user is the three parts in a row.
    pub fn told_parts(first: &str, second: &str, third: &str) -> (r: AppError)
        ensures
            r@ == Failure::User(first@ + second@ + third@),
    {
        let mut text = first.to_string();
        text.append(second);
        text.append(third);
        AppError::User(text)
    }

    /// The sentence that tells the user.
    pub fn message(&self) -> (r: String)
        ensures
            r@ == self@.text(),
    {
        match self {
            AppError::User(message) => message.clone(),
            AppError::Cancelled => "Operation cancelled".to_string(),
            AppError::Timeout => "The operation timed out".to_string(),
            AppError::StaleDocument =>
            "The document changed while the operation was running; retry the action".to_string(),
            AppError::VaultRejected =>
            "Ansible Vault rejected the password or encrypted data".to_string(),
            AppError::Filesystem(message) => {
                let mut text = "A filesystem operation failed: ".to_string();
                text.append(message.as_str());
                text
            },
            AppError::Internal(_) => "An internal extension error occurred".to_string(),
        }
    }
}

} // verus!
